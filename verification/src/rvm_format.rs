//! The byte-level vocabulary of the RVM format: big-endian words, chunk names,
//! primitive kind tags and the COLR colour-definition blocks.
use crate::geometry::GeometryKind;
use vstd::prelude::*;

verus! {

/// The big-endian value of four bytes.
pub open spec fn be_u32(a: u8, b: u8, c: u8, d: u8) -> u32 {
    (a as int * 0x1000000 + b as int * 0x10000 + c as int * 0x100 + d as int) as u32
}

/// The big-endian word at `p` of `s`.
pub open spec fn be_word_at(s: Seq<u8>, p: int) -> u32 {
    be_u32(s[p], s[p + 1], s[p + 2], s[p + 3])
}

/// Shifting and or-ing four bytes gives their big-endian value.
pub proof fn lemma_be_u32_bits(a: u8, b: u8, c: u8, d: u8)
    ensures
        ((a as u32) << 24u32) | ((b as u32) << 16u32) | ((c as u32) << 8u32) | (d as u32) == be_u32(a, b, c, d),
        a as int * 0x1000000 + b as int * 0x10000 + c as int * 0x100 + d as int <= u32::MAX,
{
    assert(((a as u32) << 24u32) | ((b as u32) << 16u32) | ((c as u32) << 8u32) | (d as u32)
        == (a as u32) * 0x1000000 + (b as u32) * 0x10000 + (c as u32) * 0x100 + (d as u32)) by (bit_vector);
    assert(a as int * 0x1000000 + b as int * 0x10000 + c as int * 0x100 + d as int <= u32::MAX) by (nonlinear_arith)
        requires a <= 255, b <= 255, c <= 255, d <= 255;
}

/// Combines four bytes into a big-endian word.
pub fn be_u32_of(a: u8, b: u8, c: u8, d: u8) -> (r: u32)
    ensures
        r == be_u32(a, b, c, d),
{
    proof {
        lemma_be_u32_bits(a, b, c, d);
    }
    ((a as u32) << 24) | ((b as u32) << 16) | ((c as u32) << 8) | (d as u32)
}

/// The id of a four-letter chunk name: its letters as a big-endian word.
pub fn chunk_id(s: &[u8; 4]) -> (r: u32)
    ensures
        r == be_u32(s@[0], s@[1], s@[2], s@[3]),
{
    be_u32_of(s[0], s[1], s[2], s[3])
}

/// `HEAD`: file header.
pub const HEAD: u32 = 0x48454144;
/// `MODL`: model header.
pub const MODL: u32 = 0x4D4F444C;
/// `CNTB`: container begin.
pub const CNTB: u32 = 0x434E5442;
/// `CNTE`: container end.
pub const CNTE: u32 = 0x434E5445;
/// `PRIM`: primitive.
pub const PRIM: u32 = 0x5052494D;
/// `OBST`: obstruction primitive.
pub const OBST: u32 = 0x4F425354;
/// `INSU`: insulation primitive.
pub const INSU: u32 = 0x494E5355;
/// `COLR`: colour definition.
pub const COLR: u32 = 0x434F4C52;
/// `END:`: end of the stream.
pub const END_: u32 = 0x454E443A;

/// The primitive kind that tag `k` stands for, if any (tags 1..=11).
pub open spec fn spec_kind(k: u32) -> Option<GeometryKind> {
    if k == 1 {
        Some(GeometryKind::Pyramid)
    } else if k == 2 {
        Some(GeometryKind::Box)
    } else if k == 3 {
        Some(GeometryKind::RectangularTorus)
    } else if k == 4 {
        Some(GeometryKind::CircularTorus)
    } else if k == 5 {
        Some(GeometryKind::EllipticalDish)
    } else if k == 6 {
        Some(GeometryKind::SphericalDish)
    } else if k == 7 {
        Some(GeometryKind::Snout)
    } else if k == 8 {
        Some(GeometryKind::Cylinder)
    } else if k == 9 {
        Some(GeometryKind::Sphere)
    } else if k == 10 {
        Some(GeometryKind::Line)
    } else if k == 11 {
        Some(GeometryKind::FacetGroup)
    } else {
        None
    }
}

/// Maps an RVM primitive tag to its kind; `None` for any tag outside 1..=11.
pub fn kind_from_u32(k: u32) -> (r: Option<GeometryKind>)
    ensures
        r == spec_kind(k),
        r is Some <==> 1 <= k <= 11,
{
    match k {
        1 => Some(GeometryKind::Pyramid),
        2 => Some(GeometryKind::Box),
        3 => Some(GeometryKind::RectangularTorus),
        4 => Some(GeometryKind::CircularTorus),
        5 => Some(GeometryKind::EllipticalDish),
        6 => Some(GeometryKind::SphericalDish),
        7 => Some(GeometryKind::Snout),
        8 => Some(GeometryKind::Cylinder),
        9 => Some(GeometryKind::Sphere),
        10 => Some(GeometryKind::Line),
        11 => Some(GeometryKind::FacetGroup),
        _ => None,
    }
}

/// Distinct tags name distinct kinds.
pub proof fn law_kind_tags_distinct(a: u32, b: u32)
    requires
        spec_kind(a) is Some,
        spec_kind(a) == spec_kind(b),
    ensures
        a == b,
{
}

/// Whether a COLR block starts at `i`: the letters C, O, L, R as the last byte of
/// four consecutive words, then the word 1 ending at `i + 20`.
pub open spec fn colr_at(b: Seq<u8>, i: int) -> bool {
    &&& b[i] == 67u8
    &&& b[i + 4] == 79u8
    &&& b[i + 8] == 76u8
    &&& b[i + 12] == 82u8
    &&& b[i + 17] == 0u8
    &&& b[i + 18] == 0u8
    &&& b[i + 19] == 0u8
    &&& b[i + 20] == 1u8
}

/// The `(index, rgb)` pair of the COLR block at `i`: the big-endian index at
/// `i + 25` and the red, green and blue bytes at `i + 29..=31`.
pub open spec fn colr_entry(b: Seq<u8>, i: int) -> (u32, u32) {
    (be_u32(b[i + 25], b[i + 26], b[i + 27], b[i + 28]), be_u32(0, b[i + 29], b[i + 30], b[i + 31]))
}

/// The COLR blocks starting before position `k`, in order.
pub open spec fn colr_blocks_before(b: Seq<u8>, k: int) -> Seq<(u32, u32)>
    decreases k,
{
    if k <= 0 {
        Seq::empty()
    } else if colr_at(b, k - 1) {
        colr_blocks_before(b, k - 1).push(colr_entry(b, k - 1))
    } else {
        colr_blocks_before(b, k - 1)
    }
}

/// The number of positions at which a whole block fits into `n` bytes.
pub open spec fn colr_scan_limit(n: int) -> int {
    if n > 31 {
        n - 31
    } else {
        0
    }
}

/// Every COLR block of `b` that lies wholly inside it, in order of position.
pub open spec fn colr_blocks(b: Seq<u8>) -> Seq<(u32, u32)> {
    colr_blocks_before(b, colr_scan_limit(b.len() as int))
}

/// Scans a byte buffer for RVM COLR blocks, returning their `(index, rgb)` pairs.
pub fn scan_colr_blocks(buf: &[u8]) -> (out: Vec<(u32, u32)>)
    ensures
        out@ == colr_blocks(buf@),
{
    let n = buf.len();
    let limit = n.saturating_sub(31);
    let mut out: Vec<(u32, u32)> = Vec::new();
    let mut i: usize = 0;
    while i < limit
        invariant
            n == buf@.len(),
            limit as int == colr_scan_limit(n as int),
            i <= limit,
            out@ == colr_blocks_before(buf@, i as int),
        decreases limit - i,
    {
        if buf[i] == 67u8 && buf[i + 4] == 79u8 && buf[i + 8] == 76u8 && buf[i + 12] == 82u8
            && buf[i + 17] == 0u8 && buf[i + 18] == 0u8 && buf[i + 19] == 0u8 && buf[i + 20] == 1u8
        {
            let index = be_u32_of(buf[i + 25], buf[i + 26], buf[i + 27], buf[i + 28]);
            let rgb = be_u32_of(0, buf[i + 29], buf[i + 30], buf[i + 31]);
            out.push((index, rgb));
        }
        i += 1;
    }
    out
}

} // verus!

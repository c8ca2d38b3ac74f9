//! The byte layer of the binary glTF container: little-endian words, the 4-byte
//! padding of the binary buffer, and the framing of a JSON chunk and a binary chunk
//! behind the 12-byte GLB header.
use vstd::prelude::*;

verus! {

/// The GLB serialiser. This library holds its byte-exact parts, the free functions
/// of this module; the writer that computes the geometry and the glTF JSON that fill
/// the chunks (floating-point work) belongs to the program, not to this type.
pub struct GlbWriter;

/// The four bytes of `x`, least significant first.
#[verifier::opaque]
pub open spec fn le32(x: u32) -> Seq<u8> {
    seq![(x % 256) as u8, ((x / 256) % 256) as u8, ((x / 65536) % 256) as u8, (x / 16777216) as u8]
}

/// The number that four little-endian bytes stand for.
pub open spec fn le32_value(b: Seq<u8>) -> int {
    b[0] + 256 * b[1] + 65536 * b[2] + 16777216 * b[3]
}

/// The little-endian bytes of each word, one word after the other.
pub open spec fn le32_all(s: Seq<u32>) -> Seq<u8>
    decreases s.len(),
{
    if s.len() == 0 {
        Seq::empty()
    } else {
        le32_all(s.drop_last()) + le32(s.last())
    }
}

/// `n` rounded up to a multiple of 4.
pub open spec fn padded4(n: nat) -> nat {
    ((n + 3) / 4 * 4) as nat
}

/// `n` as a 32-bit length field holds it: modulo 2^32.
pub open spec fn wrap32(n: nat) -> u32 {
    (n % 0x1_0000_0000) as u32
}

/// `n` copies of the byte `b`.
pub open spec fn repeat_byte(b: u8, n: nat) -> Seq<u8> {
    Seq::new(n, |i: int| b)
}

/// `glTF`
pub open spec fn glb_magic() -> Seq<u8> {
    seq![0x67u8, 0x6cu8, 0x54u8, 0x46u8]
}

/// The chunk type of the JSON chunk (`JSON` read as a little-endian word).
pub open spec fn json_chunk_type() -> u32 {
    0x4E4F534A
}

/// The chunk type of the binary chunk (`BIN\0` read as a little-endian word).
pub open spec fn bin_chunk_type() -> u32 {
    0x004E4942
}

/// The length of a GLB with a JSON chunk of `json_len` bytes (before padding) and
/// a binary chunk of `bin_len` bytes (none when it is 0).
pub open spec fn glb_total_len(json_len: nat, bin_len: nat) -> nat {
    20 + padded4(json_len) + if bin_len == 0 { 0 } else { 8 + bin_len }
}

/// A GLB: the header (magic, version 2, total length), the JSON chunk (its padded
/// length, its type, the JSON, spaces up to a multiple of 4) and, when `bin` is not
/// empty, the binary chunk (its length, its type, the bytes). Length fields hold
/// their value modulo 2^32.
pub open spec fn glb_bytes(json: Seq<u8>, bin: Seq<u8>) -> Seq<u8> {
    let jp = padded4(json.len());
    glb_magic() + le32(2) + le32(wrap32(glb_total_len(json.len(), bin.len()))) + le32(wrap32(jp))
        + le32(json_chunk_type()) + json + repeat_byte(0x20, (jp - json.len()) as nat) + if bin.len() == 0 {
        Seq::empty()
    } else {
        le32(wrap32(bin.len())) + le32(bin_chunk_type()) + bin
    }
}

/// Appends the little-endian bytes of `x`.
pub fn push_le32(out: &mut Vec<u8>, x: u32)
    ensures
        final(out)@ == old(out)@ + le32(x),
{
    out.push((x % 256) as u8);
    out.push(((x / 256) % 256) as u8);
    out.push(((x / 65536) % 256) as u8);
    out.push((x / 16777216) as u8);
    reveal(le32);
    assert(final(out)@ =~= old(out)@ + le32(x));
}

/// Appends `src`.
fn push_bytes(out: &mut Vec<u8>, src: &[u8])
    ensures
        final(out)@ == old(out)@ + src@,
{
    let mut i: usize = 0;
    while i < src.len()
        invariant
            i <= src@.len(),
            out@ == old(out)@ + src@.subrange(0, i as int),
        decreases src.len() - i,
    {
        out.push(src[i]);
        assert(src@.subrange(0, i + 1) == src@.subrange(0, i as int).push(src@[i as int]));
        i += 1;
    }
    assert(src@.subrange(0, src@.len() as int) == src@);
}

/// Appends the little-endian bytes of each word of `vals` (an index buffer).
pub fn push_le32_all(out: &mut Vec<u8>, vals: &[u32])
    ensures
        final(out)@ == old(out)@ + le32_all(vals@),
{
    let mut i: usize = 0;
    while i < vals.len()
        invariant
            i <= vals@.len(),
            out@ == old(out)@ + le32_all(vals@.subrange(0, i as int)),
        decreases vals.len() - i,
    {
        push_le32(out, vals[i]);
        let ghost s = vals@.subrange(0, i + 1);
        assert(s.drop_last() == vals@.subrange(0, i as int));
        assert(s.last() == vals@[i as int]);
        i += 1;
    }
    assert(vals@.subrange(0, vals@.len() as int) == vals@);
}

/// Pads `bin` with zero bytes up to a multiple of 4.
pub fn pad_to_4(bin: &mut Vec<u8>)
    ensures
        final(bin)@ == old(bin)@ + repeat_byte(0, (padded4(old(bin)@.len()) - old(bin)@.len()) as nat),
{
    let ghost start = bin@;
    while bin.len() % 4 != 0
        invariant
            start.len() <= bin@.len() <= padded4(start.len()),
            bin@ == start + repeat_byte(0, (bin@.len() - start.len()) as nat),
        decreases padded4(start.len()) - bin@.len(),
    {
        let ghost before = bin@;
        bin.push(0);
        assert(bin@ =~= start + repeat_byte(0, (bin@.len() - start.len()) as nat));
    }
}

/// Frames a JSON text and a binary buffer (already padded to a multiple of 4 by the
/// caller) as a GLB (see [`glb_bytes`]).
pub fn frame_glb(json_bytes: &[u8], bin: &[u8]) -> (glb: Vec<u8>)
    requires
        json_bytes@.len() + bin@.len() + 40 <= usize::MAX,
    ensures
        glb@ == glb_bytes(json_bytes@, bin@),
{
    let json_padded_len: usize = (json_bytes.len() + 3) / 4 * 4;
    let json_padding: usize = json_padded_len - json_bytes.len();
    let total_len: usize = 12 + 8 + json_padded_len + if bin.len() == 0 { 0 } else { 8 + bin.len() };
    let mut glb: Vec<u8> = Vec::new();
    glb.push(0x67);
    glb.push(0x6c);
    glb.push(0x54);
    glb.push(0x46);
    push_le32(&mut glb, 2);
    push_le32(&mut glb, ((total_len as u64) % 0x1_0000_0000) as u32);
    push_le32(&mut glb, ((json_padded_len as u64) % 0x1_0000_0000) as u32);
    push_le32(&mut glb, 0x4E4F534A);
    push_bytes(&mut glb, json_bytes);
    let ghost before_pad = glb@;
    let mut k: usize = 0;
    while k < json_padding
        invariant
            k <= json_padding,
            glb@ == before_pad + repeat_byte(0x20, k as nat),
        decreases json_padding - k,
    {
        glb.push(0x20);
        assert(glb@ =~= before_pad + repeat_byte(0x20, (k + 1) as nat));
        k += 1;
    }
    if bin.len() != 0 {
        push_le32(&mut glb, ((bin.len() as u64) % 0x1_0000_0000) as u32);
        push_le32(&mut glb, 0x004E4942);
        push_bytes(&mut glb, bin);
    }
    proof {
        let jp = padded4(json_bytes@.len());
        assert(json_padded_len == jp);
        assert(total_len == glb_total_len(json_bytes@.len(), bin@.len()));
        assert(glb_magic() == seq![0x67u8, 0x6cu8, 0x54u8, 0x46u8]);
    }
    assert(glb@ =~= glb_bytes(json_bytes@, bin@));
    glb
}

/// The word that [`le32`] encodes is read back from its bytes.
pub proof fn lemma_le32_value(x: u32)
    ensures
        le32(x).len() == 4,
        le32_value(le32(x)) == x,
{
    reveal(le32);
}

/// `padded4(n)` is the multiple of 4 in `n .. n + 3`.
pub proof fn lemma_padded4(n: nat)
    ensures
        padded4(n) % 4 == 0,
        n <= padded4(n) < n + 4,
{
    let q = (n + 3) / 4;
    assert(4 * q <= n + 3 < 4 * q + 4);
    assert((4 * q) % 4 == 0) by (nonlinear_arith);
}

/// The 20 header bytes of [`glb_bytes`].
pub open spec fn glb_head(json_len: nat, bin_len: nat) -> Seq<u8> {
    glb_magic() + le32(2) + le32(wrap32(glb_total_len(json_len, bin_len))) + le32(wrap32(padded4(json_len))) + le32(json_chunk_type())
}

/// The part of [`glb_bytes`] after the padded JSON.
pub open spec fn glb_tail(bin: Seq<u8>) -> Seq<u8> {
    if bin.len() == 0 {
        Seq::empty()
    } else {
        le32(wrap32(bin.len())) + le32(bin_chunk_type()) + bin
    }
}

proof fn lemma_glb_parts(json: Seq<u8>, bin: Seq<u8>)
    ensures
        glb_bytes(json, bin) == glb_head(json.len(), bin.len()) + (json + repeat_byte(0x20, (padded4(json.len()) - json.len()) as nat)) + glb_tail(bin),
        glb_head(json.len(), bin.len()).len() == 20,
{
    lemma_le32_value(2);
    lemma_le32_value(wrap32(glb_total_len(json.len(), bin.len())));
    lemma_le32_value(wrap32(padded4(json.len())));
    lemma_le32_value(json_chunk_type());
    lemma_le32_value(wrap32(bin.len()));
    lemma_le32_value(bin_chunk_type());
    lemma_padded4(json.len());
    assert(glb_bytes(json, bin) =~= glb_head(json.len(), bin.len()) + (json + repeat_byte(0x20, (padded4(json.len()) - json.len()) as nat)) + glb_tail(bin));
}

proof fn lemma_head_fields(json_len: nat, bin_len: nat)
    ensures
        ({
            let h = glb_head(json_len, bin_len);
            &&& h.subrange(0, 4) == glb_magic()
            &&& h.subrange(4, 8) == le32(2)
            &&& h.subrange(8, 12) == le32(wrap32(glb_total_len(json_len, bin_len)))
            &&& h.subrange(12, 16) == le32(wrap32(padded4(json_len)))
            &&& h.subrange(16, 20) == le32(json_chunk_type())
        }),
{
    lemma_le32_value(2);
    lemma_le32_value(wrap32(glb_total_len(json_len, bin_len)));
    lemma_le32_value(wrap32(padded4(json_len)));
    lemma_le32_value(json_chunk_type());
    let h = glb_head(json_len, bin_len);
    assert(h.subrange(0, 4) =~= glb_magic());
    assert(h.subrange(4, 8) =~= le32(2));
    assert(h.subrange(8, 12) =~= le32(wrap32(glb_total_len(json_len, bin_len))));
    assert(h.subrange(12, 16) =~= le32(wrap32(padded4(json_len))));
    assert(h.subrange(16, 20) =~= le32(json_chunk_type()));
}

proof fn lemma_tail_fields(bin: Seq<u8>)
    requires
        bin.len() > 0,
    ensures
        glb_tail(bin).len() == 8 + bin.len(),
        glb_tail(bin).subrange(0, 4) == le32(wrap32(bin.len())),
        glb_tail(bin).subrange(4, 8) == le32(bin_chunk_type()),
        glb_tail(bin).subrange(8, 8 + bin.len() as int) == bin,
{
    lemma_le32_value(wrap32(bin.len()));
    lemma_le32_value(bin_chunk_type());
    let t = glb_tail(bin);
    assert(t.subrange(0, 4) =~= le32(wrap32(bin.len())));
    assert(t.subrange(4, 8) =~= le32(bin_chunk_type()));
    assert(t.subrange(8, 8 + bin.len() as int) =~= bin);
}

/// A GLB's header holds its own length, the JSON chunk's header holds the padded
/// length of the JSON, the JSON and the binary buffer stand unchanged at their places,
/// and with a binary buffer padded to 4 bytes the whole file is 4-byte aligned.
pub proof fn law_glb_layout(json: Seq<u8>, bin: Seq<u8>)
    requires
        glb_total_len(json.len(), bin.len()) < 0x1_0000_0000,
    ensures
        ({
            let g = glb_bytes(json, bin);
            let jp = padded4(json.len()) as int;
            &&& g.len() == glb_total_len(json.len(), bin.len())
            &&& bin.len() % 4 == 0 ==> g.len() % 4 == 0
            &&& g.subrange(0, 4) == glb_magic()
            &&& le32_value(g.subrange(4, 8)) == 2
            &&& le32_value(g.subrange(8, 12)) == g.len()
            &&& le32_value(g.subrange(12, 16)) == jp
            &&& le32_value(g.subrange(16, 20)) == json_chunk_type()
            &&& g.subrange(20, 20 + json.len() as int) == json
            &&& jp % 4 == 0 && json.len() <= jp < json.len() + 4
            &&& bin.len() > 0 ==> {
                &&& le32_value(g.subrange(20 + jp, 24 + jp)) == bin.len()
                &&& le32_value(g.subrange(24 + jp, 28 + jp)) == bin_chunk_type()
                &&& g.subrange(28 + jp, g.len() as int) == bin
            }
        }),
{
    lemma_glb_len(json, bin);
    lemma_glb_header_words(json, bin);
    lemma_glb_json(json, bin);
    if bin.len() > 0 {
        lemma_glb_bin(json, bin);
    }
}

proof fn lemma_glb_len(json: Seq<u8>, bin: Seq<u8>)
    ensures
        glb_bytes(json, bin).len() == glb_total_len(json.len(), bin.len()),
        padded4(json.len()) % 4 == 0,
        json.len() <= padded4(json.len()) < json.len() + 4,
        bin.len() % 4 == 0 ==> glb_total_len(json.len(), bin.len()) % 4 == 0,
{
    lemma_glb_parts(json, bin);
    lemma_padded4(json.len());
    if bin.len() > 0 {
        lemma_le32_value(wrap32(bin.len()));
        lemma_le32_value(bin_chunk_type());
    }
}

proof fn lemma_glb_header_words(json: Seq<u8>, bin: Seq<u8>)
    requires
        glb_total_len(json.len(), bin.len()) < 0x1_0000_0000,
    ensures
        ({
            let g = glb_bytes(json, bin);
            &&& g.subrange(0, 4) == glb_magic()
            &&& le32_value(g.subrange(4, 8)) == 2
            &&& le32_value(g.subrange(8, 12)) == glb_total_len(json.len(), bin.len())
            &&& le32_value(g.subrange(12, 16)) == padded4(json.len())
            &&& le32_value(g.subrange(16, 20)) == json_chunk_type()
        }),
{
    let jp = padded4(json.len()) as int;
    let h = glb_head(json.len(), bin.len());
    let body = json + repeat_byte(0x20, (jp - json.len()) as nat);
    let t = glb_tail(bin);
    lemma_glb_parts(json, bin);
    lemma_head_fields(json.len(), bin.len());
    lemma_head_window(h, body, t, 0);
    lemma_head_window(h, body, t, 4);
    lemma_head_window(h, body, t, 8);
    lemma_head_window(h, body, t, 12);
    lemma_head_window(h, body, t, 16);
    lemma_le32_value(2);
    lemma_le32_value(wrap32(glb_total_len(json.len(), bin.len())));
    lemma_le32_value(wrap32(jp as nat));
    lemma_le32_value(json_chunk_type());
}

proof fn lemma_glb_json(json: Seq<u8>, bin: Seq<u8>)
    ensures
        glb_bytes(json, bin).subrange(20, 20 + json.len() as int) == json,
{
    let jp = padded4(json.len()) as int;
    let h = glb_head(json.len(), bin.len());
    let body = json + repeat_byte(0x20, (jp - json.len()) as nat);
    let t = glb_tail(bin);
    lemma_glb_parts(json, bin);
    lemma_sub_left(h + body, t, 20, 20 + json.len() as int);
    lemma_sub_right(h, body, 20, 20 + json.len() as int);
    lemma_sub_left(json, repeat_byte(0x20, (jp - json.len()) as nat), 0, json.len() as int);
    assert(json.subrange(0, json.len() as int) =~= json);
}

proof fn lemma_glb_bin(json: Seq<u8>, bin: Seq<u8>)
    requires
        bin.len() > 0,
        glb_total_len(json.len(), bin.len()) < 0x1_0000_0000,
    ensures
        ({
            let g = glb_bytes(json, bin);
            let jp = padded4(json.len()) as int;
            &&& le32_value(g.subrange(20 + jp, 24 + jp)) == bin.len()
            &&& le32_value(g.subrange(24 + jp, 28 + jp)) == bin_chunk_type()
            &&& g.subrange(28 + jp, g.len() as int) == bin
        }),
{
    let g = glb_bytes(json, bin);
    let jp = padded4(json.len()) as int;
    let h = glb_head(json.len(), bin.len());
    let body = json + repeat_byte(0x20, (jp - json.len()) as nat);
    let t = glb_tail(bin);
    lemma_glb_parts(json, bin);
    lemma_tail_fields(bin);
    lemma_le32_value(wrap32(bin.len()));
    lemma_le32_value(bin_chunk_type());
    assert((h + body).len() == 20 + jp);
    lemma_sub_right(h + body, t, 20 + jp, 24 + jp);
    lemma_sub_right(h + body, t, 24 + jp, 28 + jp);
    lemma_sub_right(h + body, t, 28 + jp, g.len() as int);
}

/// A 4-byte window of the 20 header bytes of `h + body + t`.
proof fn lemma_head_window(h: Seq<u8>, body: Seq<u8>, t: Seq<u8>, i: int)
    requires
        h.len() == 20,
        0 <= i <= 16,
    ensures
        (h + body + t).subrange(i, i + 4) == h.subrange(i, i + 4),
{
    lemma_sub_left(h + body, t, i, i + 4);
    lemma_sub_left(h, body, i, i + 4);
}

/// A window of `a + b` inside `a` is a window of `a`.
proof fn lemma_sub_left<T>(a: Seq<T>, b: Seq<T>, i: int, j: int)
    requires
        0 <= i <= j <= a.len(),
    ensures
        (a + b).subrange(i, j) == a.subrange(i, j),
{
    assert((a + b).subrange(i, j) =~= a.subrange(i, j));
}

/// A window of `a + b` inside `b` is a window of `b`.
proof fn lemma_sub_right<T>(a: Seq<T>, b: Seq<T>, i: int, j: int)
    requires
        a.len() <= i <= j <= a.len() + b.len(),
    ensures
        (a + b).subrange(i, j) == b.subrange(i - a.len(), j - a.len()),
{
    assert((a + b).subrange(i, j) =~= b.subrange(i - a.len(), j - a.len()));
}

} // verus!

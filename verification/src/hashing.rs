//! MD5 digests (the `md5` crate): of whole byte strings, and of a stream that is
//! consumed byte by byte while it is parsed.
use crate::text::{join, joined, string_views};
use vstd::prelude::*;
use vstd::string::*;

verus! {

/// An incremental MD5 computation.
#[verifier::external_type_specification]
#[verifier::external_body]
pub struct ExMd5Context(md5::Context);

/// The lower-case hexadecimal MD5 digest of `data`, as `md5::compute` and `{:x}` give it.
pub uninterp spec fn spec_md5_hex(data: Seq<u8>) -> Seq<char>;

/// Whether every character of `s` is one of `0-9a-f`.
pub open spec fn is_lower_hex(s: Seq<char>) -> bool {
    forall|i: int| 0 <= i < s.len() ==> ('0' <= #[trigger] s[i] <= '9' || 'a' <= s[i] <= 'f')
}

/// `md5::compute(data)` written with `{:x}`: the digest of `data` as 32 lower-case
/// hexadecimal digits (two per digest byte).
#[verifier::external_body]
pub(crate) fn md5_hex(data: &[u8]) -> (r: String)
    ensures
        r@ == spec_md5_hex(data@),
        r@.len() == 32,
        is_lower_hex(r@),
{
    format!("{:x}", md5::compute(data))
}

/// The bytes an MD5 computation has consumed, in order.
pub uninterp spec fn md5_input(ctx: md5::Context) -> Seq<u8>;

/// `md5::Context::new`: a computation that has consumed nothing.
#[verifier::external_body]
pub(crate) fn md5_context_new() -> (r: md5::Context)
    ensures
        md5_input(r) == Seq::<u8>::empty(),
{
    md5::Context::new()
}

/// `md5::Context::consume` of one byte: the byte joins the consumed ones.
#[verifier::external_body]
pub(crate) fn md5_consume_byte(ctx: &mut md5::Context, b: u8)
    ensures
        md5_input(*final(ctx)) == md5_input(*old(ctx)).push(b),
{
    ctx.consume([b]);
}

/// `md5::Context::compute` on a copy of `ctx`, written with `{:x}`: the digest of the
/// bytes consumed so far, as `md5::compute` of them gives it (the crate computes the
/// latter by consuming the data into a fresh context).
#[verifier::external_body]
pub(crate) fn md5_context_hex(ctx: &md5::Context) -> (r: String)
    ensures
        r@ == spec_md5_hex(md5_input(*ctx)),
        r@.len() == 32,
        is_lower_hex(r@),
{
    format!("{:x}", ctx.clone().compute())
}

/// The MD5 digest of some bytes: 32 lower-case hexadecimal digits.
pub fn md5_of(data: &[u8]) -> (r: String)
    ensures
        r@ == spec_md5_hex(data@),
        r@.len() == 32,
        is_lower_hex(r@),
{
    md5_hex(data)
}

/// The hash of a parent path as a file name carries it: the first 8 hexadecimal
/// digits of the MD5 of the names joined with `/`; empty for an empty path.
pub open spec fn spec_parent_hash(parent: Seq<Seq<char>>) -> Seq<char> {
    if parent.len() == 0 {
        Seq::empty()
    } else {
        spec_md5_hex(vstd::utf8::encode_utf8(joined(parent, seq!['/']))).subrange(0, 8)
    }
}

/// The stable hash of a parent path (see [`spec_parent_hash`]).
pub fn parent_hash(parent: &Vec<String>) -> (r: String)
    ensures
        r@ == spec_parent_hash(string_views(parent@)),
        parent@.len() == 0 ==> r@.len() == 0,
        parent@.len() > 0 ==> r@.len() == 8 && is_lower_hex(r@),
{
    broadcast use vstd::string::group_string_axioms;
    if parent.len() == 0 {
        return String::new();
    }
    let slash = String::from_str("/");
    proof {
        reveal_strlit("/");
    }
    let path = join(parent, slash.as_str());
    let h = md5_hex(path.as_str().as_bytes());
    let hs = h.as_str();
    assert(is_ascii(hs)) by {
        assert forall|i| 0 <= i < hs@.len() implies '\0' <= #[trigger] hs@[i] <= '\u{7f}' by {
            assert('0' <= hs@[i] <= '9' || 'a' <= hs@[i] <= 'f');
        }
    }
    let short = hs.substring_ascii(0, 8);
    assert(slash@ == seq!['/']);
    assert(path@ == joined(string_views(parent@), seq!['/']));
    let r = short.to_string();
    assert(r@ == short@);
    r
}

} // verus!

//! Buffered, position-tracking reader of an RVM byte stream.
//!
//! The stream is read through an [`InputHandle`] in windows of 1 KiB; every byte
//! handed out is also fed to an incremental MD5. Reads past the end of the input do
//! not fail: what they return is not specified (it is whatever the window holds).
use crate::hashing::{md5_consume_byte, md5_context_new, md5_input, spec_md5_hex};
use crate::io::{read_result_ok, InputHandle};
use crate::rvm_format::{be_u32, be_u32_of, be_word_at};
use crate::text::string_push;
use vstd::prelude::*;

verus! {

/// Why parsing stopped early.
pub enum ParseError {
    /// The input reported an error.
    Input(std::io::Error),
    /// The position would pass the largest addressable offset.
    PositionOverflow,
    /// A root holds more nodes than node ids can number.
    IdsExhausted,
}

/// The number of leading bytes of `s` before its first zero byte (all of `s` if none).
pub open spec fn nul_free_len(s: Seq<u8>) -> nat
    decreases s.len(),
{
    if s.len() == 0 {
        0
    } else if s[0] == 0 {
        0
    } else {
        1 + nul_free_len(s.drop_first())
    }
}

/// The bytes of `s` before its first zero byte, each taken as the character of that code.
pub open spec fn text_before_nul(s: Seq<u8>) -> Seq<char> {
    s.subrange(0, nul_free_len(s) as int).map_values(|b: u8| b as char)
}

/// A string field at `p`: a big-endian word `n`, then `4 * n` bytes holding the text
/// up to its first zero byte. Gives the text and the position after the field, when
/// the whole field lies inside `c`.
pub open spec fn string_at(c: Seq<u8>, p: int) -> Option<(Seq<char>, int)> {
    if p < 0 || p + 4 > c.len() {
        None
    } else {
        let e = p + 4 + 4 * (be_word_at(c, p) as int);
        if e > c.len() {
            None
        } else {
            Some((text_before_nul(c.subrange(p + 4, e)), e))
        }
    }
}

/// `nul_free_len` is `k` when the first `k` bytes are not zero and the next one is
/// zero or absent.
pub proof fn lemma_nul_free_len(s: Seq<u8>, k: int)
    requires
        0 <= k <= s.len(),
        forall|j: int| 0 <= j < k ==> s[j] != 0,
        k == s.len() || s[k] == 0,
    ensures
        nul_free_len(s) == k,
    decreases k,
{
    if k > 0 {
        lemma_nul_free_len(s.drop_first(), k - 1);
    }
}

/// Reads an RVM stream from an input, one byte at a time through a 1 KiB window.
pub struct RvmReader<I: InputHandle> {
    input: I,
    pos: u64,
    file_len: u64,
    buf: Vec<u8>,
    buf_start: u64,
    buf_len: u64,
    md5: md5::Context,
}

impl<I: InputHandle> RvmReader<I> {
    /// The bytes of the input.
    pub open spec fn data(&self) -> Seq<u8> {
        self.source().contents()
    }

    /// The current position.
    pub closed spec fn position(&self) -> nat {
        self.pos as nat
    }

    /// The length of the input.
    pub open spec fn len(&self) -> nat {
        self.data().len()
    }

    /// Every byte handed out so far, in order.
    pub closed spec fn consumed(&self) -> Seq<u8> {
        md5_input(self.md5)
    }

    /// The input the reader reads.
    pub closed spec fn source(&self) -> I {
        self.input
    }

    /// The window holds a stretch of the input and the position is in range.
    pub closed spec fn wf(&self) -> bool {
        &&& self.buf@.len() == 1024
        &&& self.file_len as int == self.input.contents().len()
        &&& self.buf_len > 0 ==> self.buf_start + self.buf_len <= self.file_len
        &&& self.buf_len <= 1024
        &&& forall|i: int| 0 <= i < self.buf_len ==> #[trigger] self.buf@[i] == self.input.contents()[self.buf_start + i]
    }

    /// The input of a well-formed reader fits in the range of positions.
    pub proof fn lemma_len_fits(&self)
        requires
            self.wf(),
        ensures
            self.len() <= u64::MAX,
    {
    }

    /// A reader at position 0 of `input`.
    pub fn new(input: I) -> (r: Self)
        ensures
            r.wf(),
            r.position() == 0,
            r.source() == input,
            r.data() == input.contents(),
            r.consumed() == Seq::<u8>::empty(),
    {
        let file_len = input.size();
        RvmReader {
            input,
            pos: 0,
            file_len,
            buf: vec![0u8; 1024],
            buf_start: 0,
            buf_len: 0,
            md5: md5_context_new(),
        }
    }

    /// The input read by this reader.
    pub fn input(&self) -> (r: &I)
        ensures
            *r == self.source(),
    {
        &self.input
    }

    /// The length of the input in bytes.
    pub fn file_len(&self) -> (n: u64)
        requires
            self.wf(),
        ensures
            n == self.len(),
    {
        self.file_len
    }

    /// The current position.
    pub fn pos(&self) -> (p: u64)
        ensures
            p == self.position(),
    {
        self.pos
    }

    /// Moves to position `p` (the window is kept; it is refilled when needed).
    pub fn seek(&mut self, p: u64)
        requires
            old(self).wf(),
        ensures
            final(self).wf(),
            final(self).position() == p,
            final(self).data() == old(self).data(),
            final(self).len() == old(self).len(),
            final(self).source() == old(self).source(),
            final(self).consumed() == old(self).consumed(),
    {
        self.pos = p;
    }

    /// The MD5 digest (hex) of every byte handed out so far.
    pub fn digest_hex(&self) -> (r: String)
        ensures
            r@ == spec_md5_hex(self.consumed()),
            r@.len() == 32,
            crate::hashing::is_lower_hex(r@),
    {
        crate::hashing::md5_context_hex(&self.md5)
    }

    /// Refills the window at the position when the position has left it.
    fn fill_buf(&mut self) -> (r: Result<(), ParseError>)
        requires
            old(self).wf(),
        ensures
            final(self).wf(),
            final(self).position() == old(self).position(),
            final(self).data() == old(self).data(),
            final(self).len() == old(self).len(),
            final(self).source() == old(self).source(),
            r is Ok && final(self).pos < final(self).file_len ==> final(self).buf_start <= final(self).pos < final(self).buf_start + final(self).buf_len,
            r is Ok ==> final(self).buf_start <= final(self).pos,
            r is Ok ==> final(self).pos - final(self).buf_start < 1024,
            final(self).consumed() == old(self).consumed(),
            old(self).source().reads_never_fail() ==> r is Ok,
    {
        if self.pos < self.buf_start || self.pos - self.buf_start >= self.buf_len {
            let pos = self.pos;
            let ghost data = self.input.contents();
            let res = self.input.read_at(pos, self.buf.as_mut_slice());
            match res {
                Ok(n) => {
                    proof {
                        assert(read_result_ok(data, pos as int, old(self).buf@, self.buf@, n as int));
                    }
                    self.buf_start = pos;
                    self.buf_len = n as u64;
                    Ok(())
                },
                Err(e) => {
                    self.buf_len = 0;
                    Err(ParseError::Input(e))
                },
            }
        } else {
            Ok(())
        }
    }

    /// Reads one byte and moves past it.
    pub fn read_u8(&mut self) -> (r: Result<u8, ParseError>)
        requires
            old(self).wf(),
        ensures
            final(self).wf(),
            final(self).data() == old(self).data(),
            final(self).len() == old(self).len(),
            final(self).source() == old(self).source(),
            r is Ok ==> final(self).position() == old(self).position() + 1,
            r is Ok && old(self).position() < old(self).len() ==> r->Ok_0 == old(self).data()[old(self).position() as int],
            r is Ok ==> final(self).consumed() == old(self).consumed().push(r->Ok_0),
            old(self).position() == u64::MAX ==> r matches Err(ParseError::PositionOverflow),
            old(self).position() < u64::MAX && old(self).source().reads_never_fail() ==> r is Ok,
    {
        if self.pos == u64::MAX {
            return Err(ParseError::PositionOverflow);
        }
        self.fill_buf()?;
        let b = self.buf[(self.pos - self.buf_start) as usize];
        self.pos += 1;
        md5_consume_byte(&mut self.md5, b);
        Ok(b)
    }

    /// Reads a big-endian word.
    pub fn read_u32_be(&mut self) -> (r: Result<u32, ParseError>)
        requires
            old(self).wf(),
        ensures
            final(self).wf(),
            final(self).data() == old(self).data(),
            final(self).len() == old(self).len(),
            final(self).source() == old(self).source(),
            r is Ok ==> final(self).position() == old(self).position() + 4,
            r is Ok && old(self).position() + 4 <= old(self).len() ==> r->Ok_0 == be_word_at(old(self).data(), old(self).position() as int),
            old(self).source().reads_never_fail() ==> (r is Ok <==> old(self).position() + 4 <= u64::MAX),
            old(self).source().reads_never_fail() && r is Err ==> r matches Err(ParseError::PositionOverflow),
    {
        let b3 = self.read_u8()?;
        let b2 = self.read_u8()?;
        let b1 = self.read_u8()?;
        let b0 = self.read_u8()?;
        Ok(be_u32_of(b3, b2, b1, b0))
    }

    /// Reads a string field (see [`string_at`]).
    pub fn read_string(&mut self) -> (r: Result<String, ParseError>)
        requires
            old(self).wf(),
        ensures
            final(self).wf(),
            final(self).data() == old(self).data(),
            final(self).len() == old(self).len(),
            final(self).source() == old(self).source(),
            r is Ok && string_at(old(self).data(), old(self).position() as int) is Some ==> {
                &&& r->Ok_0@ == string_at(old(self).data(), old(self).position() as int)->Some_0.0
                &&& final(self).position() == string_at(old(self).data(), old(self).position() as int)->Some_0.1
            },
            old(self).source().reads_never_fail() && string_at(old(self).data(), old(self).position() as int) is Some ==> r is Ok,
    {
        let ghost p: int = self.pos as int;
        let ghost c = self.data();
        let s_len = self.read_u32_be()?;
        let byte_len: u64 = 4 * (s_len as u64);
        let ghost within = string_at(c, p) is Some;
        let ghost body = c.subrange(p + 4, p + 4 + byte_len);
        let mut result = String::new();
        let mut read: u64 = 0;
        proof {
            if within && byte_len == 0 {
                lemma_nul_free_len(body, 0);
            }
        }
        while read < byte_len
            invariant_except_break
                self.wf(),
                self.data() == c,
                c == old(self).data(),
                p == old(self).position(),
                self.len() == c.len(),
                self.len() == old(self).len(),
                self.source() == old(self).source(),
                read <= byte_len,
                body == c.subrange(p + 4, p + 4 + byte_len),
                within == (string_at(c, p) is Some),
                within ==> self.position() == p + 4 + read,
                within && read == byte_len ==> result@ == text_before_nul(body),
                within ==> byte_len == 4 * be_word_at(c, p) && p + 4 + byte_len <= c.len(),
                within ==> result@ == body.subrange(0, read as int).map_values(|b: u8| b as char),
                within ==> forall|j: int| 0 <= j < read ==> body[j] != 0,
            ensures
                self.wf(),
                self.data() == c,
                self.len() == c.len(),
                self.len() == old(self).len(),
                self.source() == old(self).source(),
                within ==> self.position() == p + 4 + byte_len,
                within ==> result@ == text_before_nul(body),
            decreases byte_len - read,
        {
            let ghost k = read as int;
            let ghost at: int = self.position() as int;
            let b = self.read_u8()?;
            proof {
                if within {
                    assert(at < c.len());
                    assert(body.len() == byte_len);
                    assert(b == c[at]);
                    assert(b == body[k]);
                }
            }
            read += 1;
            if b == 0 {
                proof {
                    if within {
                        lemma_nul_free_len(body, k);
                    }
                }
                while read < byte_len
                    invariant
                        self.wf(),
                        self.data() == c,
                        c == old(self).data(),
                        p == old(self).position(),
                        within ==> byte_len == 4 * be_word_at(c, p) && p + 4 + byte_len <= c.len(),
                        within == (string_at(c, p) is Some),
                        self.len() == c.len(),
                        self.len() == old(self).len(),
                        self.source() == old(self).source(),
                        read <= byte_len,
                        within ==> self.position() == p + 4 + read,
                    decreases byte_len - read,
                {
                    self.read_u8()?;
                    read += 1;
                }
                break;
            }
            let ghost before = result@;
            string_push(&mut result, b as char);
            proof {
                if within {
                    assert(body.subrange(0, read as int) == body.subrange(0, k).push(b));
                    if read == byte_len {
                        lemma_nul_free_len(body, read as int);
                        assert(body.subrange(0, read as int) == body);
                    }
                }
            }
        }
        proof {
            if within {
                if read == byte_len {
                }
            }
        }
        Ok(result)
    }
}

} // verus!

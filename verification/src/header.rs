//! The fixed champion-file header: magic, null-padded name, code size, and
//! null-padded comment, all big-endian, `HEADER_SIZE` bytes in all.

use vstd::prelude::*;
use vstd::utf8::{decode_utf8, valid_utf8};
use crate::{HEADER_SIZE, PROG_COMMENT_LENGTH, PROG_NAME_LENGTH};
use crate::bytes::{be32_bytes, be32_word, u32_be_byte};
use crate::strings::string_from_bytes;

verus! {

/// The unpacked header of a champion binary.
#[derive(Debug)]
pub struct Header {
    pub magic: u32,
    /// The name field: `PROG_NAME_LENGTH + 1` bytes, null-padded.
    pub prog_name: Vec<u8>,
    /// Length in bytes of the code section that follows the header.
    pub prog_size: u32,
    /// The comment field: `PROG_COMMENT_LENGTH + 1` bytes, null-padded.
    pub prog_comment: Vec<u8>,
}

/// The wire layout of a header: 4 magic bytes, 129 name bytes, 4 size
/// bytes, 2049 comment bytes.
pub open spec fn spec_header_bytes(h: Header) -> Seq<u8> {
    be32_bytes(h.magic) + h.prog_name@ + be32_bytes(h.prog_size) + h.prog_comment@
}

/// Index of the first NUL byte of `s` at or after `i`, or `s.len()` if
/// there is none.
pub open spec fn nul_idx_from(s: Seq<u8>, i: int) -> int
    recommends
        0 <= i <= s.len(),
    decreases s.len() - i,
{
    if i < 0 || i >= s.len() {
        s.len() as int
    } else if s[i] == 0 {
        i
    } else {
        nul_idx_from(s, i + 1)
    }
}

/// The bytes of a null-padded field up to (not including) its first NUL.
pub open spec fn nul_prefix(s: Seq<u8>) -> Seq<u8> {
    s.take(nul_idx_from(s, 0))
}

impl Header {
    pub open spec fn wf(&self) -> bool {
        &&& self.prog_name@.len() == PROG_NAME_LENGTH + 1
        &&& self.prog_comment@.len() == PROG_COMMENT_LENGTH + 1
    }

    /// Unpacks the header found at the start of `bytes`.
    pub fn from_bytes(bytes: &[u8]) -> (r: Header)
        requires
            bytes@.len() >= HEADER_SIZE,
        ensures
            r.wf(),
            r.magic == be32_word(bytes@[0], bytes@[1], bytes@[2], bytes@[3]),
            r.prog_name@ == bytes@.subrange(4, 4 + (PROG_NAME_LENGTH + 1)),
            r.prog_size == be32_word(bytes@[133], bytes@[134], bytes@[135], bytes@[136]),
            r.prog_comment@ == bytes@.subrange(137, 137 + (PROG_COMMENT_LENGTH + 1)),
    {
        let magic = u32_from_be(bytes[0], bytes[1], bytes[2], bytes[3]);
        let name_slice = vstd::slice::slice_subrange(bytes, 4, 4 + (PROG_NAME_LENGTH + 1));
        let prog_name = vstd::slice::slice_to_vec(name_slice);
        let prog_size = u32_from_be(bytes[133], bytes[134], bytes[135], bytes[136]);
        let comment_slice = vstd::slice::slice_subrange(bytes, 137, 137 + (PROG_COMMENT_LENGTH + 1));
        let prog_comment = vstd::slice::slice_to_vec(comment_slice);
        Header { magic, prog_name, prog_size, prog_comment }
    }

    /// Packs the header into its wire form.
    pub fn to_bytes(&self) -> (r: Vec<u8>)
        requires
            self.wf(),
        ensures
            r@ == spec_header_bytes(*self),
            r@.len() == HEADER_SIZE,
    {
        let mut out: Vec<u8> = Vec::new();
        out.push(u32_be_byte(self.magic, 0));
        out.push(u32_be_byte(self.magic, 1));
        out.push(u32_be_byte(self.magic, 2));
        out.push(u32_be_byte(self.magic, 3));
        out.extend_from_slice(self.prog_name.as_slice());
        out.push(u32_be_byte(self.prog_size, 0));
        out.push(u32_be_byte(self.prog_size, 1));
        out.push(u32_be_byte(self.prog_size, 2));
        out.push(u32_be_byte(self.prog_size, 3));
        out.extend_from_slice(self.prog_comment.as_slice());
        proof {
            assert(out@ =~= spec_header_bytes(*self));
        }
        out
    }

    /// The program name: the name field's bytes up to its first NUL,
    /// decoded as UTF-8.
    pub fn name(&self) -> (r: String)
        requires
            self.wf(),
        ensures
            valid_utf8(nul_prefix(self.prog_name@)) ==> r@ == decode_utf8(
                nul_prefix(self.prog_name@),
            ),
    {
        field_until_nul(&self.prog_name)
    }

    /// The program comment: the comment field's bytes up to its first NUL,
    /// decoded as UTF-8.
    pub fn comment(&self) -> (r: String)
        requires
            self.wf(),
        ensures
            valid_utf8(nul_prefix(self.prog_comment@)) ==> r@ == decode_utf8(
                nul_prefix(self.prog_comment@),
            ),
    {
        field_until_nul(&self.prog_comment)
    }
}

/// Reads four big-endian bytes as an unsigned 32-bit word.
pub fn u32_from_be(b0: u8, b1: u8, b2: u8, b3: u8) -> (r: u32)
    ensures
        r == be32_word(b0, b1, b2, b3),
{
    ((b0 as u32) << 24) | ((b1 as u32) << 16) | ((b2 as u32) << 8) | (b3 as u32)
}

/// Decodes a null-padded field up to its first NUL.
fn field_until_nul(field: &Vec<u8>) -> (r: String)
    ensures
        valid_utf8(nul_prefix(field@)) ==> r@ == decode_utf8(nul_prefix(field@)),
{
    let n = field.len();
    let mut i: usize = 0;
    let mut stop = false;
    while i < n && !stop
        invariant
            0 <= i <= n == field@.len(),
            forall|j: int| 0 <= j < i ==> field@[j] != 0,
            stop ==> i < n && field@[i as int] == 0,
        decreases n - i, (if stop { 0int } else { 1int }),
    {
        if *vstd::std_specs::vec::vec_index(field, i) == 0 {
            stop = true;
        } else {
            i = i + 1;
        }
    }
    proof {
        if i < field@.len() {
            lemma_nul_idx_reaches(field@, 0, i as int);
        } else {
            lemma_nul_idx_all_nonzero(field@, 0);
        }
        assert(nul_idx_from(field@, 0) == i);
    }
    let prefix = vstd::slice::slice_subrange(field.as_slice(), 0, i);
    proof {
        assert(prefix@ =~= nul_prefix(field@));
    }
    string_from_bytes(prefix)
}

/// Scanning from `k` stops exactly at the first NUL position `i`.
proof fn lemma_nul_idx_reaches(s: Seq<u8>, k: int, i: int)
    requires
        0 <= k <= i < s.len(),
        s[i] == 0,
        forall|j: int| k <= j < i ==> s[j] != 0,
    ensures
        nul_idx_from(s, k) == i,
    decreases i - k,
{
    if k < i {
        lemma_nul_idx_reaches(s, k + 1, i);
    }
}

/// A field with no NUL at all scans through to its end.
proof fn lemma_nul_idx_all_nonzero(s: Seq<u8>, k: int)
    requires
        0 <= k <= s.len(),
        forall|j: int| k <= j < s.len() ==> s[j] != 0,
    ensures
        nul_idx_from(s, k) == s.len(),
    decreases s.len() - k,
{
    if k < s.len() {
        lemma_nul_idx_all_nonzero(s, k + 1);
    }
}

} // verus!

//! Big-endian length prefixes and length-prefixed UTF-8 code fields.

use vstd::prelude::*;
use vstd::utf8::*;
use crate::error::ProtoError;
use crate::text::{string_from_utf8, utf8_bytes};

verus! {

/// Longest code, in bytes, that a receiver or a phone accepts.
pub const MAX_CODE_LEN: u32 = 10_000;

/// Longest image, in bytes, that a receiver accepts.
pub const MAX_IMAGE_LEN: u32 = 5_000_000;

/// Most entries that a sync request or reply may announce.
pub const MAX_ENTRIES: u32 = 10_000;

/// The four big-endian bytes of `x`.
pub open spec fn be_bytes(x: u32) -> Seq<u8> {
    seq![
        (x / 0x100_0000) as u8,
        ((x / 0x1_0000) % 0x100) as u8,
        ((x / 0x100) % 0x100) as u8,
        (x % 0x100) as u8,
    ]
}

/// The number that four big-endian bytes stand for.
pub open spec fn be_value(b0: u8, b1: u8, b2: u8, b3: u8) -> u32 {
    (b0 * 0x100_0000 + b1 * 0x1_0000 + b2 * 0x100 + b3) as u32
}

/// The big-endian `u32` at `pos`, if four bytes are there.
pub open spec fn read_u32(buf: Seq<u8>, pos: int) -> Option<u32> {
    if 0 <= pos && pos + 4 <= buf.len() {
        Some(be_value(buf[pos], buf[pos + 1], buf[pos + 2], buf[pos + 3]))
    } else {
        None
    }
}

/// The length prefix written for `n` bytes or entries: `n` cut to 32 bits,
/// as a cast to `u32` does.
pub open spec fn len_prefix(n: nat) -> u32 {
    (n % 0x1_0000_0000) as u32
}

/// A code on the wire: its UTF-8 length as a big-endian `u32`, then its UTF-8 bytes.
pub open spec fn code_field(code: Seq<char>) -> Seq<u8> {
    be_bytes(len_prefix(encode_utf8(code).len())) + encode_utf8(code)
}

/// Reads a code field at `pos`: the code and the position after it.
pub open spec fn read_code(buf: Seq<u8>, pos: int) -> Result<(Seq<char>, int), ProtoError> {
    match read_u32(buf, pos) {
        None => Err(ProtoError::Truncated),
        Some(n) => if n > MAX_CODE_LEN {
            Err(ProtoError::CodeTooLarge(n))
        } else if pos + 4 + n > buf.len() {
            Err(ProtoError::Truncated)
        } else if !valid_utf8(buf.subrange(pos + 4, pos + 4 + n)) {
            Err(ProtoError::NotUtf8)
        } else {
            Ok((decode_utf8(buf.subrange(pos + 4, pos + 4 + n)), pos + 4 + n))
        },
    }
}

/// The byte read at `pos`, if there is one.
pub open spec fn read_byte(buf: Seq<u8>, pos: int) -> Option<u8> {
    if 0 <= pos < buf.len() {
        Some(buf[pos])
    } else {
        None
    }
}

/// The four bytes of `x` read back give `x`.
pub proof fn lemma_be_roundtrip(x: u32)
    ensures
        be_value(be_bytes(x)[0], be_bytes(x)[1], be_bytes(x)[2], be_bytes(x)[3]) == x,
{
    let b = be_bytes(x);
    assert(b[0] * 0x100_0000 + b[1] * 0x1_0000 + b[2] * 0x100 + b[3] == x) by (nonlinear_arith)
        requires
            b[0] == x / 0x100_0000,
            b[1] == (x / 0x1_0000) % 0x100,
            b[2] == (x / 0x100) % 0x100,
            b[3] == x % 0x100,
            x < 0x1_0000_0000,
    ;
}

/// The four bytes written for `x` are its base-256 digits, most significant
/// first (big-endian): each is a byte, and they weigh 2^24, 2^16, 2^8 and 1.
pub proof fn law_big_endian(x: u32)
    ensures
        be_bytes(x).len() == 4,
        be_bytes(x)[0] * 0x100_0000 + be_bytes(x)[1] * 0x1_0000 + be_bytes(x)[2] * 0x100 + be_bytes(
            x,
        )[3] == x,
        x < 0x100 ==> be_bytes(x) == seq![0u8, 0u8, 0u8, x as u8],
{
    lemma_be_roundtrip(x);
}

/// Reading a `u32` at the start of `be_bytes(x) + rest` gives `x`.
pub proof fn lemma_read_u32_prefix(x: u32, buf: Seq<u8>, pos: int)
    requires
        0 <= pos,
        pos + 4 <= buf.len(),
        buf.subrange(pos, pos + 4) == be_bytes(x),
    ensures
        read_u32(buf, pos) == Some(x),
{
    lemma_be_roundtrip(x);
    assert(buf[pos] == buf.subrange(pos, pos + 4)[0]);
    assert(buf[pos + 1] == buf.subrange(pos, pos + 4)[1]);
    assert(buf[pos + 2] == buf.subrange(pos, pos + 4)[2]);
    assert(buf[pos + 3] == buf.subrange(pos, pos + 4)[3]);
}

/// A length that fits in 32 bits is its own prefix.
pub proof fn lemma_len_prefix_small(n: nat)
    requires
        n < 0x1_0000_0000,
    ensures
        len_prefix(n) == n,
{
}

/// A code field laid down at `pos` reads back as the same code, when its
/// UTF-8 length is within the limit.
pub proof fn lemma_read_code_field(code: Seq<char>, buf: Seq<u8>, pos: int)
    requires
        0 <= pos,
        pos + code_field(code).len() <= buf.len(),
        buf.subrange(pos, pos + code_field(code).len()) == code_field(code),
        encode_utf8(code).len() <= MAX_CODE_LEN,
    ensures
        read_code(buf, pos) == Ok::<(Seq<char>, int), ProtoError>(
            (code, pos + code_field(code).len()),
        ),
        code_field(code).len() == 4 + encode_utf8(code).len(),
{
    let bytes = encode_utf8(code);
    let n = bytes.len();
    lemma_len_prefix_small(n);
    let f = code_field(code);
    assert(buf.subrange(pos, pos + 4) =~= f.subrange(0, 4));
    assert(f.subrange(0, 4) =~= be_bytes(n as u32));
    lemma_read_u32_prefix(n as u32, buf, pos);
    assert(f.len() == 4 + n);
    assert forall|j: int| 0 <= j < n implies #[trigger] buf.subrange(pos + 4, pos + 4 + n)[j]
        == bytes[j] by {
        assert(buf.subrange(pos, pos + f.len())[4 + j] == f[4 + j]);
    }
    assert(buf.subrange(pos + 4, pos + 4 + n) =~= bytes);
    encode_utf8_valid_utf8(code);
    encode_utf8_decode_utf8(code);
}

/// Appends the four big-endian bytes of `x`.
pub fn push_u32_be(out: &mut Vec<u8>, x: u32)
    ensures
        final(out)@ == old(out)@ + be_bytes(x),
{
    out.push((x / 0x100_0000) as u8);
    out.push(((x / 0x1_0000) % 0x100) as u8);
    out.push(((x / 0x100) % 0x100) as u8);
    out.push((x % 0x100) as u8);
    assert(final(out)@ =~= old(out)@ + be_bytes(x));
}

/// Appends the length prefix for `n`.
pub fn push_len_prefix(out: &mut Vec<u8>, n: usize)
    ensures
        final(out)@ == old(out)@ + be_bytes(len_prefix(n as nat)),
{
    let wide: u64 = n as u64;
    let cut: u32 = (wide % 0x1_0000_0000u64) as u32;
    push_u32_be(out, cut);
}

/// Appends bytes one by one.
pub fn push_bytes(out: &mut Vec<u8>, bytes: &[u8])
    ensures
        final(out)@ == old(out)@ + bytes@,
{
    let ghost start = out@;
    let mut i: usize = 0;
    while i < bytes.len()
        invariant
            i <= bytes@.len(),
            out@ == start + bytes@.subrange(0, i as int),
        decreases bytes@.len() - i,
    {
        out.push(bytes[i]);
        i = i + 1;
        assert(out@ =~= start + bytes@.subrange(0, i as int));
    }
    assert(bytes@.subrange(0, bytes@.len() as int) =~= bytes@);
}

/// Appends a code field: the code's UTF-8 length, then its UTF-8 bytes.
pub fn push_code(out: &mut Vec<u8>, code: &str)
    ensures
        final(out)@ == old(out)@ + code_field(code@),
{
    let bytes = utf8_bytes(code);
    push_len_prefix(out, bytes.len());
    push_bytes(out, bytes.as_slice());
    assert(final(out)@ =~= old(out)@ + code_field(code@));
}

/// Reads the big-endian `u32` at `pos`, if four bytes are there.
pub fn get_u32_be(buf: &[u8], pos: usize) -> (r: Option<u32>)
    ensures
        r == read_u32(buf@, pos as int),
{
    if pos > buf.len() || buf.len() - pos < 4 {
        None
    } else {
        let b0 = buf[pos] as u32;
        let b1 = buf[pos + 1] as u32;
        let b2 = buf[pos + 2] as u32;
        let b3 = buf[pos + 3] as u32;
        Some(b0 * 0x100_0000 + b1 * 0x1_0000 + b2 * 0x100 + b3)
    }
}

/// Reads the byte at `pos`, if there is one.
pub fn get_byte(buf: &[u8], pos: usize) -> (r: Option<u8>)
    ensures
        r == read_byte(buf@, pos as int),
{
    if pos < buf.len() {
        Some(buf[pos])
    } else {
        None
    }
}

/// Reads a code field at `pos`: the code and the position after it.
pub fn get_code(buf: &[u8], pos: usize) -> (r: Result<(String, usize), ProtoError>)
    ensures
        match r {
            Ok((s, p)) => read_code(buf@, pos as int) == Ok::<(Seq<char>, int), ProtoError>(
                (s@, p as int),
            ),
            Err(e) => read_code(buf@, pos as int) == Err::<(Seq<char>, int), ProtoError>(e),
        },
{
    let n = match get_u32_be(buf, pos) {
        None => return Err(ProtoError::Truncated),
        Some(n) => n,
    };
    if n > MAX_CODE_LEN {
        return Err(ProtoError::CodeTooLarge(n));
    }
    let blen = buf.len();
    assert(pos + 4 <= blen);
    let start = pos + 4;
    let len = n as usize;
    if buf.len() - start < len {
        return Err(ProtoError::Truncated);
    }
    let end = start + len;
    let bytes = vstd::slice::slice_to_vec(vstd::slice::slice_subrange(buf, start, end));
    match string_from_utf8(bytes) {
        None => Err(ProtoError::NotUtf8),
        Some(s) => Ok((s, end)),
    }
}

} // verus!

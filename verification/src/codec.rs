//! Low-level pieces of the record codec: fixed-capacity text slots,
//! little-endian integer fields, and length-prefixed payloads. Text slots are
//! 32 bytes; longer values are silently truncated and decoding never fails,
//! falling back to empty or zero on short input.

use vstd::bytes::*;
use vstd::prelude::*;
use vstd::slice::{slice_subrange, slice_to_vec};
use vstd::string::StrSliceExecFns;
use vstd::string::StringSliceAdditionalSpecFns;
use vstd::utf8::*;

use crate::strings::string_from_utf8;

verus! {

/// The fixed-slot encoding of a text field: its UTF-8 bytes, truncated to the
/// 32-byte slot and padded with zero bytes.
pub open spec fn spec_slot_of(s: Seq<char>) -> Seq<u8> {
    let b = encode_utf8(s);
    let t = if b.len() <= 32 {
        b
    } else {
        b.take(32)
    };
    t + Seq::new((32 - t.len()) as nat, |i: int| 0u8)
}

/// A slot encoding is exactly 32 bytes.
pub proof fn lemma_slot_len(s: Seq<char>)
    ensures
        spec_slot_of(s).len() == 32,
{
}

/// The bytes that remain at `pos` once at most `n` are taken, clipped to what
/// the buffer holds.
pub open spec fn spec_take_at(b: Seq<u8>, pos: int, n: int) -> Seq<u8> {
    if pos < 0 || pos >= b.len() {
        Seq::<u8>::empty()
    } else if pos + n <= b.len() {
        b.subrange(pos, pos + n)
    } else {
        b.subrange(pos, b.len() as int)
    }
}

/// The bytes before the trailing zero padding.
pub open spec fn spec_strip_zeros(b: Seq<u8>) -> Seq<u8>
    decreases b.len(),
{
    if b.len() > 0 && b.last() == 0 {
        spec_strip_zeros(b.drop_last())
    } else {
        b
    }
}

/// The text that a byte string decodes to: its characters when it is valid
/// UTF-8, empty text otherwise.
pub open spec fn spec_text_of(b: Seq<u8>) -> Seq<char> {
    if valid_utf8(b) {
        decode_utf8(b)
    } else {
        Seq::<char>::empty()
    }
}

/// The text that a slot's bytes decode to: the bytes before the zero padding,
/// read as UTF-8, or empty text when they are not valid UTF-8.
pub open spec fn spec_slot_text(b: Seq<u8>) -> Seq<char> {
    spec_text_of(spec_strip_zeros(b))
}

/// The byte at `pos`, or zero when the buffer ends before it.
pub open spec fn spec_byte_at(b: Seq<u8>, pos: int) -> u8 {
    if 0 <= pos < b.len() {
        b[pos]
    } else {
        0
    }
}

/// Reads the byte at `pos`, zero when the buffer ends before it.
pub fn read_byte_at(b: &Vec<u8>, pos: usize) -> (x: u8)
    ensures
        x == spec_byte_at(b@, pos as int),
{
    if pos < b.len() {
        b[pos]
    } else {
        0
    }
}

/// A decode cursor moved forward by `k`, clamped to the end of the buffer.
pub open spec fn spec_advance(pos: int, k: int, len: int) -> int {
    if len - pos >= k {
        pos + k
    } else {
        len
    }
}

/// Moves a decode cursor forward by `k`, clamping at the end of the buffer.
pub fn advance(pos: usize, k: usize, len: usize) -> (r: usize)
    requires
        pos <= len,
    ensures
        r == spec_advance(pos as int, k as int, len as int),
        pos <= r <= len,
{
    if len - pos >= k {
        pos + k
    } else {
        len
    }
}

/// Stripping ignores padding appended after bytes that do not end in zero.
pub proof fn lemma_strip_zeros_of_padded(t: Seq<u8>, k: nat)
    requires
        t.len() == 0 || t.last() != 0,
    ensures
        spec_strip_zeros(t + Seq::new(k, |i: int| 0u8)) == t,
    decreases k,
{
    let padded = t + Seq::new(k, |i: int| 0u8);
    if k == 0 {
        assert(padded =~= t);
    } else {
        assert(padded.last() == 0);
        assert(padded.drop_last() =~= t + Seq::new((k - 1) as nat, |i: int| 0u8));
        lemma_strip_zeros_of_padded(t, (k - 1) as nat);
    }
}

/// Text whose UTF-8 encoding fits a 32-byte slot without zero bytes; such
/// text survives a slot round trip unchanged.
pub open spec fn spec_fits_slot(s: Seq<char>) -> bool {
    &&& encode_utf8(s).len() <= 32
    &&& forall|i: int| 0 <= i < encode_utf8(s).len() ==> encode_utf8(s)[i] != 0
}

/// Round trip through a slot: text whose encoding fits the slot and carries
/// no zero byte is recovered exactly.
pub proof fn lemma_slot_roundtrip(s: Seq<char>)
    requires
        spec_fits_slot(s),
    ensures
        spec_slot_text(spec_slot_of(s)) == s,
{
    let b = encode_utf8(s);
    lemma_strip_zeros_of_padded(b, (32 - b.len()) as nat);
    encode_utf8_valid_utf8(s);
    encode_utf8_decode_utf8(s);
}

/// Appends a byte vector to a buffer.
pub fn push_bytes(out: &mut Vec<u8>, v: &Vec<u8>)
    ensures
        final(out)@ == old(out)@ + v@,
{
    let n = v.len();
    let mut i: usize = 0;
    while i < n
        invariant
            n == v.len(),
            i <= n,
            out@ == old(out)@ + v@.take(i as int),
        decreases n - i,
    {
        let byte = v[i];
        out.push(byte);
        proof {
            assert(v@.take(i + 1 as int) =~= v@.take(i as int).push(v@[i as int]));
        }
        i += 1;
    }
    proof {
        assert(v@.take(n as int) =~= v@);
    }
}

/// Writes a text field into its fixed slot: truncated UTF-8 bytes, then zero
/// padding.
pub fn write_slot(out: &mut Vec<u8>, s: &str)
    ensures
        final(out)@ == old(out)@ + spec_slot_of(s@),
{
    let bv = s.as_bytes_vec();
    let n: usize = if bv.len() <= 32 {
        bv.len()
    } else {
        32
    };
    let ghost t = if encode_utf8(s@).len() <= 32 {
        encode_utf8(s@)
    } else {
        encode_utf8(s@).take(32)
    };
    proof {
        assert(t =~= bv@.take(n as int));
    }
    let mut i: usize = 0;
    while i < n
        invariant
            n <= bv.len(),
            t == bv@.take(n as int),
            i <= n,
            out@ == old(out)@ + bv@.take(i as int),
        decreases n - i,
    {
        let byte = bv[i];
        out.push(byte);
        proof {
            assert(bv@.take(i + 1 as int) =~= bv@.take(i as int).push(bv@[i as int]));
        }
        i += 1;
    }
    let mut j: usize = n;
    while j < 32
        invariant
            n <= 32,
            t == bv@.take(n as int),
            n <= j <= 32,
            out@ == old(out)@ + t + Seq::new((j - n) as nat, |i: int| 0u8),
        decreases 32 - j,
    {
        out.push(0);
        proof {
            assert((old(out)@ + t + Seq::new((j - n) as nat, |i: int| 0u8)).push(0u8) =~= old(
                out,
            )@ + t + Seq::new((j + 1 - n) as nat, |i: int| 0u8));
        }
        j += 1;
    }
    proof {
        assert(out@ =~= old(out)@ + spec_slot_of(s@));
    }
}

/// The bytes at `pos` of length at most `n`, clipped to what the buffer
/// holds.
pub fn take_at(b: &Vec<u8>, pos: usize, n: usize) -> (r: Vec<u8>)
    ensures
        r@ == spec_take_at(b@, pos as int, n as int),
{
    if pos >= b.len() {
        let r: Vec<u8> = Vec::new();
        proof {
            assert(spec_take_at(b@, pos as int, n as int) =~= Seq::<u8>::empty());
        }
        return r;
    }
    let end: usize = if n <= b.len() - pos {
        pos + n
    } else {
        b.len()
    };
    let r = slice_to_vec(slice_subrange(b.as_slice(), pos, end));
    proof {
        assert(r@ =~= spec_take_at(b@, pos as int, n as int));
    }
    r
}

/// Removes the trailing zero padding of a byte vector.
pub fn strip_zeros(v: &mut Vec<u8>)
    ensures
        final(v)@ == spec_strip_zeros(old(v)@),
{
    while v.len() > 0 && v[v.len() - 1] == 0
        invariant
            spec_strip_zeros(v@) == spec_strip_zeros(old(v)@),
        decreases v.len(),
    {
        proof {
            assert(v@.drop_last() =~= v@.subrange(0, v@.len() - 1));
        }
        v.pop();
    }
}

/// Reads the text field stored in the slot at `pos`: strips the padding and
/// decodes the bytes, or returns empty text when they are not valid UTF-8.
pub fn read_slot_text(b: &Vec<u8>, pos: usize) -> (s: String)
    ensures
        s@ == spec_slot_text(spec_take_at(b@, pos as int, 32)),
{
    let mut slot = take_at(b, pos, 32);
    strip_zeros(&mut slot);
    match string_from_utf8(slot) {
        Some(s) => s,
        None => String::new(),
    }
}

/// Appends a 64-bit little-endian field.
pub fn push_u64_le(out: &mut Vec<u8>, x: u64)
    ensures
        final(out)@ == old(out)@ + spec_u64_to_le_bytes(x),
{
    let v = u64_to_le_bytes(x);
    push_bytes(out, &v);
}

/// Appends a 32-bit little-endian field.
pub fn push_u32_le(out: &mut Vec<u8>, x: u32)
    ensures
        final(out)@ == old(out)@ + spec_u32_to_le_bytes(x),
{
    let v = u32_to_le_bytes(x);
    push_bytes(out, &v);
}

/// The 64-bit little-endian field at `pos`, or zero when fewer than eight
/// bytes remain.
pub open spec fn spec_u64_le_at(b: Seq<u8>, pos: int) -> u64 {
    if pos >= 0 && pos + 8 <= b.len() {
        spec_u64_from_le_bytes(b.subrange(pos, pos + 8))
    } else {
        0
    }
}

/// Reads the 64-bit little-endian field at `pos`, zero when fewer than eight
/// bytes remain.
pub fn read_u64_le_at(b: &Vec<u8>, pos: usize) -> (x: u64)
    ensures
        x == spec_u64_le_at(b@, pos as int),
{
    if pos <= b.len() && b.len() - pos >= 8 {
        u64_from_le_bytes(slice_subrange(b.as_slice(), pos, pos + 8))
    } else {
        0
    }
}

/// The 32-bit little-endian field at `pos`, or zero when fewer than four
/// bytes remain.
pub open spec fn spec_u32_le_at(b: Seq<u8>, pos: int) -> u32 {
    if pos >= 0 && pos + 4 <= b.len() {
        spec_u32_from_le_bytes(b.subrange(pos, pos + 4))
    } else {
        0
    }
}

/// Reads the 32-bit little-endian field at `pos`, zero when fewer than four
/// bytes remain.
pub fn read_u32_le_at(b: &Vec<u8>, pos: usize) -> (x: u32)
    ensures
        x == spec_u32_le_at(b@, pos as int),
{
    if pos <= b.len() && b.len() - pos >= 4 {
        u32_from_le_bytes(slice_subrange(b.as_slice(), pos, pos + 4))
    } else {
        0
    }
}

} // verus!

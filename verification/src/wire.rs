//! Byte-level building blocks of the wire format: little-endian integer
//! fields and UTF-8 literal-tag fields.
//!
//! Every multi-byte integer on the wire is little-endian.  The spec
//! functions give the value of a byte sequence and, in the other direction,
//! the byte sequence of a value; the round-trip lemma shows that the two
//! directions agree.

use vstd::arithmetic::div_mod::{lemma_fundamental_div_mod, lemma_fundamental_div_mod_converse};
use vstd::prelude::*;

verus! {

/// The unsigned value of two little-endian bytes.
pub open spec fn u16_le(b: Seq<u8>) -> int
    recommends
        b.len() == 2,
{
    b[0] + 0x100 * b[1]
}

/// The unsigned value of four little-endian bytes.
pub open spec fn u32_le(b: Seq<u8>) -> int
    recommends
        b.len() == 4,
{
    b[0] + 0x100 * b[1] + 0x1_0000 * b[2] + 0x100_0000 * b[3]
}

/// The two's-complement signed value of four little-endian bytes.
pub open spec fn i32_le(b: Seq<u8>) -> int
    recommends
        b.len() == 4,
{
    if u32_le(b) < 0x8000_0000 {
        u32_le(b)
    } else {
        u32_le(b) - 0x1_0000_0000
    }
}

/// The four little-endian bytes of an unsigned 32-bit value.
pub open spec fn u32_le_bytes(x: int) -> Seq<u8>
    recommends
        0 <= x < 0x1_0000_0000,
{
    seq![
        (x % 0x100) as u8,
        ((x / 0x100) % 0x100) as u8,
        ((x / 0x1_0000) % 0x100) as u8,
        ((x / 0x100_0000) % 0x100) as u8,
    ]
}

/// Reading four bytes and writing the value back yields the original bytes:
/// the little-endian encoding is self-consistent.
pub proof fn lemma_u32_le_bytes_round_trip(b: Seq<u8>)
    requires
        b.len() == 4,
    ensures
        u32_le_bytes(u32_le(b)) == b,
{
    let x = u32_le(b);
    let q1 = b[1] + 0x100 * b[2] + 0x1_0000 * b[3];
    let q2 = b[2] + 0x100 * b[3];
    let q3 = b[3] as int;
    lemma_fundamental_div_mod_converse(x, 0x100, q1, b[0] as int);
    lemma_fundamental_div_mod_converse(x, 0x1_0000, q2, u16_le(b));
    lemma_fundamental_div_mod_converse(x, 0x100_0000, q3, b[0] + 0x100 * b[1] + 0x1_0000 * b[2]);
    lemma_fundamental_div_mod_converse(q1, 0x100, q2, b[1] as int);
    lemma_fundamental_div_mod_converse(q2, 0x100, q3, b[2] as int);
    lemma_fundamental_div_mod_converse(q3, 0x100, 0, b[3] as int);
    assert(u32_le_bytes(x) =~= b);
}

/// Reads the byte at `i`.
pub fn read_u8(b: &[u8], i: usize) -> (r: u8)
    requires
        i < b@.len(),
    ensures
        r == b@[i as int],
{
    *vstd::slice::slice_index_get(b, i)
}

/// Reads the little-endian 16-bit field at `i`.
pub fn read_u16_le(b: &[u8], i: usize) -> (r: u16)
    requires
        i + 2 <= b@.len(),
    ensures
        r == u16_le(b@.subrange(i as int, i + 2)),
{
    let _n = b.len();
    let b0 = *vstd::slice::slice_index_get(b, i);
    let b1 = *vstd::slice::slice_index_get(b, i + 1);
    let r = (b0 as u16) + 0x100 * (b1 as u16);
    proof {
        let s = b@.subrange(i as int, i + 2);
        assert(s[0] == b@[i as int] && s[1] == b@[i + 1]);
    }
    r
}

/// Reads the little-endian 32-bit field at `i`.
pub fn read_u32_le(b: &[u8], i: usize) -> (r: u32)
    requires
        i + 4 <= b@.len(),
    ensures
        r == u32_le(b@.subrange(i as int, i + 4)),
{
    let _n = b.len();
    let b0 = *vstd::slice::slice_index_get(b, i);
    let b1 = *vstd::slice::slice_index_get(b, i + 1);
    let b2 = *vstd::slice::slice_index_get(b, i + 2);
    let b3 = *vstd::slice::slice_index_get(b, i + 3);
    let r = (b0 as u32) + 0x100 * (b1 as u32) + 0x1_0000 * (b2 as u32) + 0x100_0000 * (b3 as u32);
    proof {
        let s = b@.subrange(i as int, i + 4);
        assert(s[0] == b@[i as int] && s[1] == b@[i + 1] && s[2] == b@[i + 2] && s[3] == b@[i
            + 3]);
    }
    r
}

/// Reads the little-endian signed 32-bit field at `i`.
pub fn read_i32_le(b: &[u8], i: usize) -> (r: i32)
    requires
        i + 4 <= b@.len(),
    ensures
        r == i32_le(b@.subrange(i as int, i + 4)),
{
    let n = read_u32_le(b, i);
    if n < 0x8000_0000u32 {
        n as i32
    } else {
        ((n as i64) - 0x1_0000_0000i64) as i32
    }
}

/// Writes a 32-bit value as its four little-endian bytes.
pub fn u32_to_le_bytes(x: u32) -> (r: Vec<u8>)
    ensures
        r@ == u32_le_bytes(x as int),
{
    proof {
        lemma_fundamental_div_mod(x as int, 0x100_0000);
    }
    let mut r: Vec<u8> = Vec::new();
    r.push((x % 0x100) as u8);
    r.push((x / 0x100 % 0x100) as u8);
    r.push((x / 0x1_0000 % 0x100) as u8);
    r.push((x / 0x100_0000) as u8);
    proof {
        assert(r@ =~= u32_le_bytes(x as int));
    }
    r
}

/// Relies on `String::from_utf8`: it succeeds exactly when the bytes are
/// valid UTF-8, and then returns the string that those bytes encode.
#[verifier::external_body]
pub(crate) fn string_from_utf8(v: Vec<u8>) -> (r: Option<String>)
    ensures
        r is Some <==> vstd::utf8::valid_utf8(v@),
        r matches Some(s) ==> s@ == vstd::utf8::decode_utf8(v@),
{
    String::from_utf8(v).ok()
}

} // verus!

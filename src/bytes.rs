//! Little-endian fields of the binary form, and UTF-8 names.
use byteorder::{ByteOrder, LittleEndian};
use vstd::prelude::*;
use vstd::slice::slice_subrange;
use vstd::utf8::{decode_utf8, valid_utf8};

verus! {

/// The unsigned value of bytes written least significant first.
pub open spec fn le_value(b: Seq<u8>) -> nat
    decreases b.len(),
{
    if b.len() == 0 {
        0
    } else {
        b[0] as nat + 256 * le_value(b.drop_first())
    }
}

/// The `u32` stored in the four bytes at `p`.
pub open spec fn u32_at(b: Seq<u8>, p: int) -> u32 {
    le_value(b.subrange(p, p + 4)) as u32
}

/// The `u64` stored in the eight bytes at `p`.
pub open spec fn u64_at(b: Seq<u8>, p: int) -> u64 {
    le_value(b.subrange(p, p + 8)) as u64
}

/// The two's-complement `i32` stored in the four bytes at `p`.
pub open spec fn i32_at(b: Seq<u8>, p: int) -> i32 {
    u32_at(b, p) as i32
}

/// The two's-complement `i64` stored in the eight bytes at `p`.
pub open spec fn i64_at(b: Seq<u8>, p: int) -> i64 {
    u64_at(b, p) as i64
}

/// Relies on byteorder's `LittleEndian::read_u32`: the value of the first
/// four bytes, least significant first (it panics on fewer than four).
#[verifier::external_body]
fn le_u32(buf: &[u8]) -> (r: u32)
    requires
        buf@.len() >= 4,
    ensures
        r as nat == le_value(buf@.subrange(0, 4)),
{
    LittleEndian::read_u32(buf)
}

/// Relies on byteorder's `LittleEndian::read_u64`: the value of the first
/// eight bytes, least significant first (it panics on fewer than eight).
#[verifier::external_body]
fn le_u64(buf: &[u8]) -> (r: u64)
    requires
        buf@.len() >= 8,
    ensures
        r as nat == le_value(buf@.subrange(0, 8)),
{
    LittleEndian::read_u64(buf)
}

/// The `u32` at `pos`.
pub fn read_u32(data: &[u8], pos: usize) -> (r: u32)
    requires
        pos + 4 <= data@.len(),
    ensures
        r == u32_at(data@, pos as int),
{
    let _n: usize = data.len();
    let s = slice_subrange(data, pos, pos + 4);
    let r: u32 = le_u32(s);
    proof {
        assert(s@.subrange(0, 4) =~= data@.subrange(pos as int, pos + 4));
    }
    r
}

/// The `u64` at `pos`.
pub fn read_u64(data: &[u8], pos: usize) -> (r: u64)
    requires
        pos + 8 <= data@.len(),
    ensures
        r == u64_at(data@, pos as int),
{
    let _n: usize = data.len();
    let s = slice_subrange(data, pos, pos + 8);
    let r: u64 = le_u64(s);
    proof {
        assert(s@.subrange(0, 8) =~= data@.subrange(pos as int, pos + 8));
    }
    r
}

/// The `i32` at `pos`.
pub fn read_i32(data: &[u8], pos: usize) -> (r: i32)
    requires
        pos + 4 <= data@.len(),
    ensures
        r == i32_at(data@, pos as int),
{
    read_u32(data, pos) as i32
}

/// The `i64` at `pos`.
pub fn read_i64(data: &[u8], pos: usize) -> (r: i64)
    requires
        pos + 8 <= data@.len(),
    ensures
        r == i64_at(data@, pos as int),
{
    read_u64(data, pos) as i64
}

/// The index of the first zero byte at or after `i`, if there is one.
pub open spec fn nul_from(b: Seq<u8>, i: int) -> Option<int>
    decreases b.len() - i,
{
    if i < 0 || i >= b.len() {
        None
    } else if b[i] == 0 {
        Some(i)
    } else {
        nul_from(b, i + 1)
    }
}

/// Finds the first zero byte at or after `start`.
pub fn find_nul(data: &[u8], start: usize) -> (r: Option<usize>)
    ensures
        r matches Some(i) ==> nul_from(data@, start as int) == Some(i as int),
        r is None ==> nul_from(data@, start as int) is None,
{
    let mut i: usize = start;
    while i < data.len()
        invariant
            start <= i,
            nul_from(data@, start as int) == nul_from(data@, i as int),
        decreases data@.len() - i,
    {
        if data[i] == 0 {
            return Some(i);
        }
        i = i + 1;
    }
    None
}

/// Relies on `std::str::from_utf8`: it accepts exactly the valid UTF-8
/// byte strings and yields the characters that they encode.
#[verifier::external_body]
fn utf8_str(b: &[u8]) -> (r: Option<&str>)
    ensures
        r is Some <==> valid_utf8(b@),
        r matches Some(s) ==> s@ == decode_utf8(b@),
{
    std::str::from_utf8(b).ok()
}

/// The text that the bytes `b` encode in UTF-8, if they are valid UTF-8.
pub fn decode_name(b: &[u8]) -> (r: Option<String>)
    ensures
        r is Some <==> valid_utf8(b@),
        r matches Some(s) ==> s@ == decode_utf8(b@),
{
    match utf8_str(b) {
        Some(s) => Some(s.to_owned()),
        None => None,
    }
}

} // verus!

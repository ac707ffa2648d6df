//! Little-endian integers, as the structures that a queue shares with its
//! driver store them.

use vstd::prelude::*;

verus! {

/// The number that two bytes hold in little-endian order.
pub open spec fn le_u16(b: Seq<u8>) -> u16 {
    (b[0] + 0x100 * b[1]) as u16
}

/// The number that four bytes hold in little-endian order.
pub open spec fn le_u32(b: Seq<u8>) -> u32 {
    (b[0] + 0x100 * b[1] + 0x1_0000 * b[2] + 0x100_0000 * b[3]) as u32
}

/// The number that eight bytes hold in little-endian order.
pub open spec fn le_u64(b: Seq<u8>) -> u64 {
    (le_u32(b.subrange(0, 4)) + 0x1_0000_0000 * le_u32(b.subrange(4, 8))) as u64
}

/// The two bytes of `v` in little-endian order.
pub open spec fn u16_bytes(v: u16) -> Seq<u8> {
    seq![(v % 0x100) as u8, (v / 0x100) as u8]
}

/// The four bytes of `v` in little-endian order.
pub open spec fn u32_bytes(v: u32) -> Seq<u8> {
    seq![
        (v % 0x100) as u8,
        (v / 0x100 % 0x100) as u8,
        (v / 0x1_0000 % 0x100) as u8,
        (v / 0x100_0000) as u8,
    ]
}

/// The eight bytes of `v` in little-endian order.
pub open spec fn u64_bytes(v: u64) -> Seq<u8> {
    u32_bytes((v % 0x1_0000_0000) as u32) + u32_bytes((v / 0x1_0000_0000) as u32)
}

/// Calls `zerocopy::little_endian::U16::get` on the value with the given bytes.
/// It returns the number that the bytes hold in little-endian order.
#[verifier::external_body]
fn u16_le_get(bytes: [u8; 2]) -> (v: u16)
    ensures
        v == le_u16(bytes@),
{
    zerocopy::little_endian::U16::from_bytes(bytes).get()
}

/// Calls `zerocopy::little_endian::U32::get` on the value with the given bytes.
/// It returns the number that the bytes hold in little-endian order.
#[verifier::external_body]
fn u32_le_get(bytes: [u8; 4]) -> (v: u32)
    ensures
        v == le_u32(bytes@),
{
    zerocopy::little_endian::U32::from_bytes(bytes).get()
}

/// Calls `zerocopy::little_endian::U64::get` on the value with the given bytes.
/// It returns the number that the bytes hold in little-endian order.
#[verifier::external_body]
fn u64_le_get(bytes: [u8; 8]) -> (v: u64)
    ensures
        v == le_u64(bytes@),
{
    zerocopy::little_endian::U64::from_bytes(bytes).get()
}

/// Calls `zerocopy::little_endian::U16::new` and takes the bytes of the value
/// it makes: those of `v` in little-endian order.
#[verifier::external_body]
pub(crate) fn u16_le_new(v: u16) -> (bytes: [u8; 2])
    ensures
        bytes@ == u16_bytes(v),
{
    zerocopy::little_endian::U16::new(v).to_bytes()
}

/// Calls `zerocopy::little_endian::U32::new` and takes the bytes of the value
/// it makes: those of `v` in little-endian order.
#[verifier::external_body]
pub(crate) fn u32_le_new(v: u32) -> (bytes: [u8; 4])
    ensures
        bytes@ == u32_bytes(v),
{
    zerocopy::little_endian::U32::new(v).to_bytes()
}

/// Calls `zerocopy::little_endian::U64::new` and takes the bytes of the value
/// it makes: those of `v` in little-endian order.
#[verifier::external_body]
pub(crate) fn u64_le_new(v: u64) -> (bytes: [u8; 8])
    ensures
        bytes@ == u64_bytes(v),
{
    zerocopy::little_endian::U64::new(v).to_bytes()
}

/// Reads the 16-bit number at `at`.
pub fn read_u16(data: &Vec<u8>, at: usize) -> (v: u16)
    requires
        at + 2 <= data@.len(),
    ensures
        v == le_u16(data@.subrange(at as int, at + 2)),
{
    assert(data@.len() == data.len());
    let bytes: [u8; 2] = [data[at], data[at + 1]];
    assert(bytes@ =~= data@.subrange(at as int, at + 2));
    u16_le_get(bytes)
}

/// Reads the 32-bit number at `at`.
pub fn read_u32(data: &Vec<u8>, at: usize) -> (v: u32)
    requires
        at + 4 <= data@.len(),
    ensures
        v == le_u32(data@.subrange(at as int, at + 4)),
{
    assert(data@.len() == data.len());
    let bytes: [u8; 4] = [data[at], data[at + 1], data[at + 2], data[at + 3]];
    assert(bytes@ =~= data@.subrange(at as int, at + 4));
    u32_le_get(bytes)
}

/// Reads the 64-bit number at `at`.
pub fn read_u64(data: &Vec<u8>, at: usize) -> (v: u64)
    requires
        at + 8 <= data@.len(),
    ensures
        v == le_u64(data@.subrange(at as int, at + 8)),
{
    assert(data@.len() == data.len());
    let bytes: [u8; 8] = [
        data[at],
        data[at + 1],
        data[at + 2],
        data[at + 3],
        data[at + 4],
        data[at + 5],
        data[at + 6],
        data[at + 7],
    ];
    assert(bytes@ =~= data@.subrange(at as int, at + 8));
    u64_le_get(bytes)
}

/// Reading the bytes of a 16-bit number gives the number back.
pub proof fn lemma_u16_round_trip(v: u16)
    ensures
        u16_bytes(v).len() == 2,
        le_u16(u16_bytes(v)) == v,
{
}

/// Reading the bytes of a 32-bit number gives the number back.
pub proof fn lemma_u32_round_trip(v: u32)
    ensures
        u32_bytes(v).len() == 4,
        le_u32(u32_bytes(v)) == v,
{
}

/// Reading the bytes of a 64-bit number gives the number back.
pub proof fn lemma_u64_round_trip(v: u64)
    ensures
        u64_bytes(v).len() == 8,
        le_u64(u64_bytes(v)) == v,
{
    let low = (v % 0x1_0000_0000) as u32;
    let high = (v / 0x1_0000_0000) as u32;
    lemma_u32_round_trip(low);
    lemma_u32_round_trip(high);
    assert(u64_bytes(v).subrange(0, 4) =~= u32_bytes(low));
    assert(u64_bytes(v).subrange(4, 8) =~= u32_bytes(high));
}

} // verus!

//! How the chain is laid out in a key-value store: three namespaces, and
//! slot numbers as eight big-endian bytes, so that keys sort as slots do.
//! Reading and writing the store is left to the caller.

use vstd::prelude::*;

verus! {

/// Namespace of blocks by slot key.
pub const BLOCKS_TREE: &'static str = "blocks";

/// Namespace of accounts by the bytes of their address.
pub const ACCOUNTS_TREE: &'static str = "accounts";

/// Namespace of single values.
pub const METADATA_TREE: &'static str = "metadata";

/// Key of the latest committed slot in the metadata namespace.
pub const LATEST_SLOT_KEY: &'static str = "latest_slot";

/// The eight big-endian bytes of a 64-bit number.
pub open spec fn be_bytes64(x: u64) -> Seq<u8> {
    seq![
        ((x as int / 0x100_0000_0000_0000) % 0x100) as u8,
        ((x as int / 0x1_0000_0000_0000) % 0x100) as u8,
        ((x as int / 0x100_0000_0000) % 0x100) as u8,
        ((x as int / 0x1_0000_0000) % 0x100) as u8,
        ((x as int / 0x100_0000) % 0x100) as u8,
        ((x as int / 0x1_0000) % 0x100) as u8,
        ((x as int / 0x100) % 0x100) as u8,
        (x as int % 0x100) as u8,
    ]
}

/// The number that eight big-endian bytes stand for.
pub open spec fn be_value64(bytes: Seq<u8>) -> int
    recommends
        bytes.len() == 8,
{
    bytes[0] as int * 0x100_0000_0000_0000 + bytes[1] as int * 0x1_0000_0000_0000 + bytes[2] as int
        * 0x100_0000_0000 + bytes[3] as int * 0x1_0000_0000 + bytes[4] as int * 0x100_0000 + bytes[5] as int
        * 0x1_0000 + bytes[6] as int * 0x100 + bytes[7] as int
}

/// The slot that a key or value stands for: `None` unless it is eight
/// bytes.
pub open spec fn stored_slot(bytes: Seq<u8>) -> Option<u64> {
    if bytes.len() == 8 {
        Some(be_value64(bytes) as u64)
    } else {
        None
    }
}

/// A slot is read back from its key.
pub proof fn lemma_slot_key_roundtrip(slot: u64)
    ensures
        stored_slot(be_bytes64(slot)) == Some(slot),
{
    let x = slot as int;
    let q1 = x / 0x100;
    let q2 = x / 0x1_0000;
    let q3 = x / 0x100_0000;
    let q4 = x / 0x1_0000_0000;
    let q5 = x / 0x100_0000_0000;
    let q6 = x / 0x1_0000_0000_0000;
    let q7 = x / 0x100_0000_0000_0000;
    assert(q2 == q1 / 0x100);
    assert(q3 == q2 / 0x100);
    assert(q4 == q3 / 0x100);
    assert(q5 == q4 / 0x100);
    assert(q6 == q5 / 0x100);
    assert(q7 == q6 / 0x100);
    assert(q7 < 0x100);
    assert(x == q1 * 0x100 + x % 0x100);
    assert(q1 == q2 * 0x100 + q1 % 0x100);
    assert(q2 == q3 * 0x100 + q2 % 0x100);
    assert(q3 == q4 * 0x100 + q3 % 0x100);
    assert(q4 == q5 * 0x100 + q4 % 0x100);
    assert(q5 == q6 * 0x100 + q5 % 0x100);
    assert(q6 == q7 * 0x100 + q6 % 0x100);
    let bytes = be_bytes64(slot);
    assert(bytes[0] == q7 % 0x100);
    assert(bytes[1] == q6 % 0x100);
    assert(bytes[2] == q5 % 0x100);
    assert(bytes[3] == q4 % 0x100);
    assert(bytes[4] == q3 % 0x100);
    assert(bytes[5] == q2 % 0x100);
    assert(bytes[6] == q1 % 0x100);
    assert(bytes[7] == x % 0x100);
    assert(be_value64(bytes) == x);
}

/// The key under which the block of a slot is stored, and the value under
/// which the latest slot is.
pub fn slot_key(slot: u64) -> (r: Vec<u8>)
    ensures
        r@ == be_bytes64(slot),
{
    let mut out: Vec<u8> = Vec::new();
    out.push(((slot / 0x100_0000_0000_0000) % 0x100) as u8);
    out.push(((slot / 0x1_0000_0000_0000) % 0x100) as u8);
    out.push(((slot / 0x100_0000_0000) % 0x100) as u8);
    out.push(((slot / 0x1_0000_0000) % 0x100) as u8);
    out.push(((slot / 0x100_0000) % 0x100) as u8);
    out.push(((slot / 0x1_0000) % 0x100) as u8);
    out.push(((slot / 0x100) % 0x100) as u8);
    out.push((slot % 0x100) as u8);
    assert(out@ =~= be_bytes64(slot));
    out
}

/// Reads a slot from a stored key or value.
pub fn parse_slot(bytes: &[u8]) -> (r: Option<u64>)
    ensures
        r == stored_slot(bytes@),
{
    if bytes.len() != 8 {
        return None;
    }
    let value: u64 = (bytes[0] as u64) * 0x100_0000_0000_0000 + (bytes[1] as u64) * 0x1_0000_0000_0000 + (
    bytes[2] as u64) * 0x100_0000_0000 + (bytes[3] as u64) * 0x1_0000_0000 + (bytes[4] as u64) * 0x100_0000
        + (bytes[5] as u64) * 0x1_0000 + (bytes[6] as u64) * 0x100 + (bytes[7] as u64);
    Some(value)
}

} // verus!

//! Big-endian 32-bit words, as the header and the record length use them.

use byteorder::{BigEndian, ByteOrder};
use vstd::prelude::*;

verus! {

/// The 32-bit value whose big-endian bytes are `b0 b1 b2 b3`.
pub open spec fn be_u32(b0: u8, b1: u8, b2: u8, b3: u8) -> u32 {
    (b0 as u32 * 0x100_0000 + b1 as u32 * 0x1_0000 + b2 as u32 * 0x100 + b3 as u32) as u32
}

/// The big-endian bytes of `value`.
pub open spec fn be_bytes(value: u32) -> Seq<u8> {
    seq![
        (value / 0x100_0000) as u8,
        (value / 0x1_0000 % 0x100) as u8,
        (value / 0x100 % 0x100) as u8,
        (value % 0x100) as u8,
    ]
}

/// The big-endian word that starts at byte `at` of `bytes`.
pub open spec fn word_at(bytes: Seq<u8>, at: int) -> u32 {
    be_u32(bytes[at], bytes[at + 1], bytes[at + 2], bytes[at + 3])
}

/// Reading back the bytes of a word gives the word.
pub proof fn lemma_be_round_trip(value: u32)
    ensures
        be_bytes(value).len() == 4,
        word_at(be_bytes(value), 0) == value,
{
    let b = be_bytes(value);
    assert(b[0] == (value / 0x100_0000) as u8);
    assert(b[1] == (value / 0x1_0000 % 0x100) as u8);
    assert(b[2] == (value / 0x100 % 0x100) as u8);
    assert(b[3] == (value % 0x100) as u8);
}

/// Calls `byteorder::ByteOrder::read_u32` of `BigEndian`, which reads the
/// first four bytes of `buf` as a big-endian word. It panics on a shorter
/// buffer, which the precondition leaves out.
#[verifier::external_body]
pub(crate) fn read_u32_be(buf: &[u8]) -> (value: u32)
    requires
        buf@.len() >= 4,
    ensures
        value == word_at(buf@, 0),
{
    BigEndian::read_u32(buf)
}

/// Calls `byteorder::ByteOrder::write_u32` of `BigEndian` on a buffer of four
/// bytes, and returns the buffer: the big-endian bytes of `value`.
#[verifier::external_body]
pub(crate) fn u32_to_be(value: u32) -> (bytes: [u8; 4])
    ensures
        bytes@ == be_bytes(value),
{
    let mut bytes = [0u8; 4];
    BigEndian::write_u32(&mut bytes, value);
    bytes
}

/// The big-endian word at byte `at` of `bytes`.
pub fn read_word(bytes: &[u8], at: usize) -> (value: u32)
    requires
        at + 4 <= bytes.len(),
    ensures
        value == word_at(bytes@, at as int),
{
    let window = vstd::slice::slice_subrange(bytes, at, at + 4);
    read_u32_be(window)
}

} // verus!

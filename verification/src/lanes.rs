//! Big-endian byte lanes of a 32-bit word.
//!
//! Lane 0 is the most significant byte of a word and lane 3 the least
//! significant one, so that a word stored to the ring reads back as four
//! bytes in increasing address order.

use vstd::prelude::*;

verus! {

/// Number of byte lanes in a word.
pub const WORD_SIZE: usize = 4;

/// The byte held in lane `i` of `word`.
pub open spec fn lane(word: u32, i: int) -> u8 {
    if i == 0 {
        (word >> 24) as u8
    } else if i == 1 {
        ((word >> 16) & 0xff) as u8
    } else if i == 2 {
        ((word >> 8) & 0xff) as u8
    } else {
        (word & 0xff) as u8
    }
}

/// The word that holds `byte` in lane `i` and zero in the other lanes.
pub open spec fn placed(byte: u8, i: int) -> u32 {
    if i == 0 {
        (byte as u32) << 24
    } else if i == 1 {
        (byte as u32) << 16
    } else if i == 2 {
        (byte as u32) << 8
    } else {
        byte as u32
    }
}

/// The word whose four lanes are `b0`, `b1`, `b2`, `b3`.
pub open spec fn packed(b0: u8, b1: u8, b2: u8, b3: u8) -> u32 {
    placed(b0, 0) | placed(b1, 1) | placed(b2, 2) | placed(b3, 3)
}

/// Reads lane `i` of `word`.
pub fn lane_of(word: u32, i: usize) -> (byte: u8)
    requires
        i < WORD_SIZE,
    ensures
        byte == lane(word, i as int),
{
    if i == 0 {
        (word >> 24) as u8
    } else if i == 1 {
        ((word >> 16) & 0xff) as u8
    } else if i == 2 {
        ((word >> 8) & 0xff) as u8
    } else {
        (word & 0xff) as u8
    }
}

/// Puts `byte` into lane `i` of an otherwise zero word.
pub fn place(byte: u8, i: usize) -> (word: u32)
    requires
        i < WORD_SIZE,
    ensures
        word == placed(byte, i as int),
{
    if i == 0 {
        (byte as u32) << 24
    } else if i == 1 {
        (byte as u32) << 16
    } else if i == 2 {
        (byte as u32) << 8
    } else {
        byte as u32
    }
}

/// Packing four bytes and reading a lane gives back the byte put there.
pub proof fn lemma_lane_of_packed(b0: u8, b1: u8, b2: u8, b3: u8)
    ensures
        lane(packed(b0, b1, b2, b3), 0) == b0,
        lane(packed(b0, b1, b2, b3), 1) == b1,
        lane(packed(b0, b1, b2, b3), 2) == b2,
        lane(packed(b0, b1, b2, b3), 3) == b3,
{
    assert({
        let w = (b0 as u32) << 24 | (b1 as u32) << 16 | (b2 as u32) << 8 | (b3 as u32);
        &&& (w >> 24) as u8 == b0
        &&& ((w >> 16) & 0xff) as u8 == b1
        &&& ((w >> 8) & 0xff) as u8 == b2
        &&& (w & 0xff) as u8 == b3
    }) by (bit_vector);
}

/// A word is the packing of its four lanes.
pub proof fn lemma_packed_lanes(word: u32)
    ensures
        packed(lane(word, 0), lane(word, 1), lane(word, 2), lane(word, 3)) == word,
{
    assert(((word >> 24) as u8 as u32) << 24 | ((((word >> 16) & 0xff) as u8) as u32) << 16 | ((((
    word >> 8) & 0xff) as u8) as u32) << 8 | (((word & 0xff) as u8) as u32) == word)
        by (bit_vector);
}

} // verus!

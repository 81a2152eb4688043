//! Packed entity handles.
//!
//! Every entity kind in the scene is addressed by a 32-bit word whose top
//! `tag_bits` bits select a variant and whose remaining low bits index a flat
//! per-variant array. Packing and unpacking are defined here once; each
//! entity kind wraps them in its own handle type.

use vstd::prelude::*;

verus! {

/// Number of low bits that carry the index for a kind with `tag_bits` tag bits.
pub open spec fn tag_shift(tag_bits: u32) -> u32
    recommends
        1 <= tag_bits <= 31,
{
    (32 - tag_bits) as u32
}

/// Largest index a handle with `tag_bits` tag bits can carry.
pub open spec fn index_limit(tag_bits: u32) -> u32
    recommends
        1 <= tag_bits <= 31,
{
    0xffff_ffffu32 >> tag_bits
}

/// The packed word for a given variant tag and index.
pub open spec fn packed(tag_bits: u32, tag: u32, idx: u32) -> u32
    recommends
        1 <= tag_bits <= 31,
{
    (tag << tag_shift(tag_bits)) | idx
}

/// The variant tag stored in a packed word.
pub open spec fn tag_of(tag_bits: u32, word: u32) -> u32
    recommends
        1 <= tag_bits <= 31,
{
    word >> tag_shift(tag_bits)
}

/// The index stored in a packed word.
pub open spec fn index_of(tag_bits: u32, word: u32) -> u32
    recommends
        1 <= tag_bits <= 31,
{
    word & index_limit(tag_bits)
}

/// Packing a tag and an in-range index loses nothing: both unpack to the
/// values that went in.
pub proof fn lemma_handle_round_trip(tag_bits: u32, tag: u32, idx: u32)
    requires
        1 <= tag_bits <= 31,
        tag < (1u32 << tag_bits),
        idx <= index_limit(tag_bits),
    ensures
        tag_of(tag_bits, packed(tag_bits, tag, idx)) == tag,
        index_of(tag_bits, packed(tag_bits, tag, idx)) == idx,
{
    let shift = (32 - tag_bits) as u32;
    assert(((tag << shift) | idx) >> shift == tag && ((tag << shift) | idx) & (0xffff_ffffu32
        >> tag_bits) == idx) by (bit_vector)
        requires
            1 <= tag_bits <= 31,
            shift + tag_bits == 32,
            tag < (1u32 << tag_bits),
            idx <= 0xffff_ffffu32 >> tag_bits,
    ;
}

/// Builds the packed word for a variant tag and an in-range index.
pub fn pack(tag_bits: u32, tag: u32, idx: u32) -> (r: u32)
    requires
        1 <= tag_bits <= 31,
        tag < (1u32 << tag_bits),
        idx <= index_limit(tag_bits),
    ensures
        r == packed(tag_bits, tag, idx),
        tag_of(tag_bits, r) == tag,
        index_of(tag_bits, r) == idx,
{
    proof {
        lemma_handle_round_trip(tag_bits, tag, idx);
    }
    (tag << (32 - tag_bits)) | idx
}

/// Extracts the variant tag of a packed word.
pub fn unpack_tag(tag_bits: u32, word: u32) -> (r: u32)
    requires
        1 <= tag_bits <= 31,
    ensures
        r == tag_of(tag_bits, word),
{
    word >> (32 - tag_bits)
}

/// Extracts the index of a packed word.
pub fn unpack_index(tag_bits: u32, word: u32) -> (r: u32)
    requires
        1 <= tag_bits <= 31,
    ensures
        r == index_of(tag_bits, word),
{
    word & (0xffff_ffffu32 >> tag_bits)
}

} // verus!

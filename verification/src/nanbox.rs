//! NaN-boxed `u64` words for Perl values: immediates live under the quiet-NaN
//! prefix `0x7FF8`, heap addresses under `0x7FF9` (address in the low 48 bits).
use vstd::prelude::*;

verus! {

/// Base for immediate tags (quiet NaN).
pub const QNAN_IMM: u64 = 0x7FF8_0000_0000_0000;

/// Sub-tag of the immediate `undef`.
pub const SUB_UNDEF: u64 = 1;

/// Sub-tag of an immediate 32-bit integer.
pub const SUB_INT32: u64 = 2;

/// High 16 bits of a heap word.
pub const HEAP_TAG_HI: u64 = 0x7FF9;

/// Mask of the 48 address bits of a heap word.
pub const ADDR_MASK: u64 = 0x0000_FFFF_FFFF_FFFF;

/// The word that encodes `undef`.
pub open spec fn spec_imm_undef() -> u64 {
    0x7FF8_0001_0000_0000u64
}

/// The word that encodes the 32-bit integer `n`: its two's-complement bits in the
/// low half, the integer sub-tag above them.
pub open spec fn spec_imm_int32(n: i32) -> u64 {
    (0x7FF8_0002_0000_0000u64 | ((n as u32) as u64)) as u64
}

/// Whether the top 16 bits are the immediate prefix.
pub open spec fn spec_is_imm(u: u64) -> bool {
    (u >> 48u64) == 0x7FF8u64
}

/// Whether the top 16 bits are the heap prefix.
pub open spec fn spec_is_heap(u: u64) -> bool {
    (u >> 48u64) == 0x7FF9u64
}

/// Whether the word is an ordinary IEEE-754 double (exponent not all ones).
pub open spec fn spec_is_raw_float_bits(u: u64) -> bool {
    ((u >> 52u64) & 0x7FFu64) != 0x7FFu64
}

/// The integer held by an immediate-int32 word, if it is one.
pub open spec fn spec_as_imm_int32(u: u64) -> Option<i32> {
    if spec_is_imm(u) && ((u >> 32u64) & 0xFFFFu64) == 2u64 {
        Some(((u & 0xFFFF_FFFFu64) as u32) as i32)
    } else {
        None
    }
}

/// The heap word for address `addr` (only its low 48 bits are kept).
pub open spec fn spec_heap_word(addr: u64) -> u64 {
    (0x7FF9_0000_0000_0000u64 | (addr & 0x0000_FFFF_FFFF_FFFFu64)) as u64
}

/// Encodes `undef`.
pub fn encode_imm_undef() -> (u: u64)
    ensures
        u == spec_imm_undef(),
{
    let u = QNAN_IMM | (SUB_UNDEF << 32u64);
    assert(QNAN_IMM | (SUB_UNDEF << 32u64) == 0x7FF8_0001_0000_0000u64) by (bit_vector)
        requires
            QNAN_IMM == 0x7FF8_0000_0000_0000u64,
            SUB_UNDEF == 1u64,
    ;
    u
}

/// Encodes a 32-bit integer as an immediate.
pub fn encode_imm_int32(n: i32) -> (u: u64)
    ensures
        u == spec_imm_int32(n),
{
    let low: u64 = (n as u32) as u64;
    let u = QNAN_IMM | (SUB_INT32 << 32u64) | low;
    assert(QNAN_IMM | (SUB_INT32 << 32u64) | low == 0x7FF8_0002_0000_0000u64 | low) by (bit_vector)
        requires
            QNAN_IMM == 0x7FF8_0000_0000_0000u64,
            SUB_INT32 == 2u64,
    ;
    u
}

/// Whether `u` carries the immediate prefix.
pub fn is_imm(u: u64) -> (b: bool)
    ensures
        b == spec_is_imm(u),
{
    (u >> 48u64) == 0x7FF8u64
}

/// Whether `u` is exactly the `undef` immediate.
pub fn is_imm_undef(u: u64) -> (b: bool)
    ensures
        b == (u == spec_imm_undef()),
{
    u == encode_imm_undef()
}

/// The integer in an immediate-int32 word; `None` for any other word.
pub fn as_imm_int32(u: u64) -> (r: Option<i32>)
    ensures
        r == spec_as_imm_int32(u),
{
    if !is_imm(u) {
        return None;
    }
    let sub = (u >> 32u64) & 0xFFFFu64;
    if sub != SUB_INT32 {
        return None;
    }
    Some(((u & 0xFFFF_FFFFu64) as u32) as i32)
}

/// Whether `u` is the bit pattern of an ordinary (finite or subnormal) double.
pub fn is_raw_float_bits(u: u64) -> (b: bool)
    ensures
        b == spec_is_raw_float_bits(u),
{
    let exp = (u >> 52u64) & 0x7FFu64;
    exp != 0x7FFu64
}

/// Encodes a heap address (its low 48 bits) under the heap prefix.
pub fn encode_heap_ptr(addr: u64) -> (u: u64)
    ensures
        u == spec_heap_word(addr),
{
    let u = (HEAP_TAG_HI << 48u64) | (addr & ADDR_MASK);
    assert((HEAP_TAG_HI << 48u64) | (addr & ADDR_MASK) == 0x7FF9_0000_0000_0000u64 | (addr
        & 0x0000_FFFF_FFFF_FFFFu64)) by (bit_vector)
        requires
            HEAP_TAG_HI == 0x7FF9u64,
            ADDR_MASK == 0x0000_FFFF_FFFF_FFFFu64,
    ;
    u
}

/// Whether `u` carries the heap prefix.
pub fn is_heap(u: u64) -> (b: bool)
    ensures
        b == spec_is_heap(u),
{
    (u >> 48u64) == HEAP_TAG_HI
}

/// The 48-bit address held in a heap word.
pub fn decode_heap_ptr(u: u64) -> (addr: u64)
    ensures
        addr == u & 0x0000_FFFF_FFFF_FFFFu64,
{
    u & ADDR_MASK
}

/// Decoding an encoded 32-bit integer gives it back.
pub proof fn lemma_int32_roundtrip(n: i32)
    ensures
        spec_as_imm_int32(spec_imm_int32(n)) == Some(n),
        spec_is_imm(spec_imm_int32(n)),
{
    let w = spec_imm_int32(n);
    let low: u64 = (n as u32) as u64;
    assert(w == 0x7FF8_0002_0000_0000u64 | low);
    assert(low <= 0xFFFF_FFFFu64);
    assert((0x7FF8_0002_0000_0000u64 | low) >> 48u64 == 0x7FF8u64) by (bit_vector)
        requires
            low <= 0xFFFF_FFFFu64,
    ;
    assert(((0x7FF8_0002_0000_0000u64 | low) >> 32u64) & 0xFFFFu64 == 2u64) by (bit_vector)
        requires
            low <= 0xFFFF_FFFFu64,
    ;
    assert((0x7FF8_0002_0000_0000u64 | low) & 0xFFFF_FFFFu64 == low) by (bit_vector)
        requires
            low <= 0xFFFF_FFFFu64,
    ;
    assert(((low as u32) as i32) == n) by (bit_vector)
        requires
            low == (n as u32) as u64,
    ;
}

/// `undef` is an immediate, and it holds no integer.
pub proof fn lemma_undef_is_imm_not_int()
    ensures
        spec_is_imm(spec_imm_undef()),
        spec_as_imm_int32(spec_imm_undef()) is None,
        !spec_is_raw_float_bits(spec_imm_undef()),
{
    assert((0x7FF8_0001_0000_0000u64 >> 48u64) == 0x7FF8u64) by (bit_vector);
    assert(((0x7FF8_0001_0000_0000u64 >> 32u64) & 0xFFFFu64) == 1u64) by (bit_vector);
    assert(((0x7FF8_0001_0000_0000u64 >> 52u64) & 0x7FFu64) == 0x7FFu64) by (bit_vector);
}

/// No encoded integer is the `undef` word.
pub proof fn lemma_int32_is_not_undef(n: i32)
    ensures
        spec_imm_int32(n) != spec_imm_undef(),
{
    lemma_int32_roundtrip(n);
    lemma_undef_is_imm_not_int();
}

/// Immediate and heap words are disjoint, and neither is an ordinary double.
pub proof fn lemma_tags_disjoint(u: u64)
    ensures
        !(spec_is_imm(u) && spec_is_heap(u)),
        spec_is_imm(u) ==> !spec_is_raw_float_bits(u),
        spec_is_heap(u) ==> !spec_is_raw_float_bits(u),
{
    assert((u >> 48u64) == 0x7FF8u64 ==> ((u >> 52u64) & 0x7FFu64) == 0x7FFu64) by (bit_vector);
    assert((u >> 48u64) == 0x7FF9u64 ==> ((u >> 52u64) & 0x7FFu64) == 0x7FFu64) by (bit_vector);
}

/// A heap word is tagged as heap, and decoding it returns the address when that
/// address fits in 48 bits.
pub proof fn lemma_heap_roundtrip(addr: u64)
    ensures
        spec_is_heap(spec_heap_word(addr)),
        addr < 0x1_0000_0000_0000u64 ==> spec_heap_word(addr) & 0x0000_FFFF_FFFF_FFFFu64 == addr,
{
    assert((0x7FF9_0000_0000_0000u64 | (addr & 0x0000_FFFF_FFFF_FFFFu64)) >> 48u64 == 0x7FF9u64)
        by (bit_vector);
    assert(addr < 0x1_0000_0000_0000u64 ==> (0x7FF9_0000_0000_0000u64 | (addr
        & 0x0000_FFFF_FFFF_FFFFu64)) & 0x0000_FFFF_FFFF_FFFFu64 == addr) by (bit_vector);
}

} // verus!

//! Bit layout of the value word, of packed pointers and of the heap head word.
use vstd::prelude::*;

verus! {

/// Exponent bits of a double, all ones: every tagged word carries them.
pub const NAN: u64 = 0x7FF0_0000_0000_0000;

/// Bits 50:48, the primary tag.
pub const TAG_MASK: u64 = 0x0007_0000_0000_0000;

/// Bits 47:44, which tell the immediates apart.
pub const IMMEDIATE_MASK: u64 = 0x0000_F000_0000_0000;

pub const IMMEDIATE_TAG: u64 = 0x0000_0000_0000_0000;

pub const VOID_TAG: u64 = 0x0000_1000_0000_0000;

pub const NIL_TAG: u64 = 0x0000_2000_0000_0000;

pub const BOOL_TAG: u64 = 0x0000_3000_0000_0000;

pub const INT_TAG: u64 = 0x0000_4000_0000_0000;

pub const SYMBOL_TAG: u64 = 0x0000_5000_0000_0000;

pub const TRUE: u64 = 1;

pub const FALSE: u64 = 0;

pub const LAMBDA_TAG: u64 = 0x0001_0000_0000_0000;

pub const PAIR_TAG: u64 = 0x0002_0000_0000_0000;

pub const VEC_TAG: u64 = 0x0003_0000_0000_0000;

pub const STRING_TAG: u64 = 0x0004_0000_0000_0000;

/// Bits 47:0, where a packed pointer lives.
pub const POINTER_MASK: u64 = 0x0000_FFFF_FFFF_FFFF;

/// Bits 63:48, set on decode when bit 47 of a packed pointer is one.
pub const POINTER_HIGH: u64 = 0xFFFF_0000_0000_0000;

/// Bits 31:0, the payload of an integer.
pub const INT_MASK: u64 = 0x0000_0000_FFFF_FFFF;

/// Bits 43:0, the payload of a symbol: everything below the immediate tag.
pub const SYMBOL_MASK: u64 = 0x0000_0FFF_FFFF_FFFF;

/// The first symbol identifier that no word can hold.
pub const SYMBOL_LIMIT: u64 = 0x0000_1000_0000_0000;

/// Bit 0 of a cell's `gc` word, the mark.
pub const MARK_BIT: u64 = 1;

/// Everything but the mark: the link to the next cell.
pub const LINK_MASK: u64 = 0xFFFF_FFFF_FFFF_FFFE;

/// Bits 54:1 of a pointer, kept as they are in a head word.
pub const HEAD_POINTER_MASK: u64 = 0x007F_FFFF_FFFF_FFFE;

/// Bits 47:1 of a head word, the pointer without its mark bit.
pub const HEAD_LOW_MASK: u64 = 0x0000_FFFF_FFFF_FFFE;

/// A pointer is canonical when bits 63:48 repeat bit 47.
pub open spec fn canonical(p: u64) -> bool {
    (p & POINTER_HIGH) == (if (p >> 47) & 1 == 1 {
        POINTER_HIGH
    } else {
        0
    })
}

/// The word of a heap value: the tag over the low 48 bits of the pointer.
pub open spec fn pointer_word(tag: u64, p: u64) -> u64 {
    NAN | tag | (p & POINTER_MASK)
}

/// The pointer that a heap value's word packs, sign-extended from bit 47.
pub open spec fn unpack_pointer(w: u64) -> u64 {
    if 1 == (w >> 47) & 1 {
        w | POINTER_HIGH
    } else {
        w & POINTER_MASK
    }
}

/// The head word for a cell at `ptr` whose kind has the code `code`:
/// the code in bits 63:56, the pointer's sign in bit 55, the pointer's
/// bits 54:1 below.
pub open spec fn head_word(ptr: u64, code: u64) -> u64 {
    (code << 56) | (((ptr >> 47) & 1) << 55) | (ptr & HEAD_POINTER_MASK)
}

/// The kind code that a head word carries.
pub open spec fn head_code(w: u64) -> u64 {
    w >> 56
}

/// The pointer that a head word carries, sign-extended from bit 55. The mark
/// bit is never part of it.
pub open spec fn head_pointer(w: u64) -> u64 {
    if (w >> 55) & 1 == 1 {
        (w & HEAD_LOW_MASK) | POINTER_HIGH
    } else {
        w & HEAD_LOW_MASK
    }
}

/// Packing a canonical pointer under any heap tag and unpacking it gives the
/// pointer back, and leaves the tag readable.
pub proof fn lemma_pointer_round_trip(tag: u64, p: u64)
    requires
        canonical(p),
        tag == LAMBDA_TAG || tag == PAIR_TAG || tag == VEC_TAG || tag == STRING_TAG,
    ensures
        unpack_pointer(pointer_word(tag, p)) == p,
        pointer_word(tag, p) & NAN == NAN,
        pointer_word(tag, p) & TAG_MASK == tag,
{
    assert(unpack_pointer(pointer_word(tag, p)) == p && pointer_word(tag, p) & NAN == NAN
        && pointer_word(tag, p) & TAG_MASK == tag) by (bit_vector)
        requires
            canonical(p),
            tag == LAMBDA_TAG || tag == PAIR_TAG || tag == VEC_TAG || tag == STRING_TAG,
    ;
}

/// A head word gives back the kind code and the pointer it was made of, for
/// every canonical pointer with a clear bit 0 and every code of eight bits.
pub proof fn lemma_head_round_trip(ptr: u64, code: u64)
    requires
        canonical(ptr),
        ptr & MARK_BIT == 0,
        code < 256,
    ensures
        head_code(head_word(ptr, code)) == code,
        head_pointer(head_word(ptr, code)) == ptr,
        head_word(ptr, code) & MARK_BIT == 0,
{
    assert(head_code(head_word(ptr, code)) == code && head_pointer(head_word(ptr, code)) == ptr
        && head_word(ptr, code) & MARK_BIT == 0) by (bit_vector)
        requires
            canonical(ptr),
            ptr & MARK_BIT == 0,
            code < 256,
    ;
}

} // verus!

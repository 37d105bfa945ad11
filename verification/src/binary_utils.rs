//! Total 16-bit word operations: bit isolation, field extraction over bit
//! ranges, sign extension, truncation, and two's-complement arithmetic.
//! Every operation is specified against a small set of spec functions that
//! the rest of the crate reuses in its contracts.

use vstd::prelude::*;

verus! {

pub const MAX_MEMORY: u16 = 0xFFFF;

pub const MAX_MEMORY_SIZE: usize = 0x10000;

pub const WORD_WIDTH: u16 = 16;

/// General-purpose register names of the machine.
#[derive(Clone, Copy, Debug, PartialEq, Eq, Structural)]
pub enum Register {
    R0,
    R1,
    R2,
    R3,
    R4,
    R5,
    R6,
    R7,
}

/// A closed range of bit positions within one word, `start_bit <= end_bit`.
#[derive(Clone, Copy, Debug)]
pub struct BitRange {
    pub start_bit: u16,
    pub end_bit: u16,
}

pub type Range = (u16, u16);

/// True when bit `i` of `w` is set; meaningful for `i <= 15`.
pub open spec fn bit_set(w: u16, i: u16) -> bool {
    (w >> i) & 1 == 1
}

/// Mask of the `n` low bits of a word, for `n <= 16`.
pub open spec fn low_mask(n: u16) -> u16 {
    ((1u32 << n) - 1) as u16
}

/// The field of `w` spanning bit positions `lo..=hi`, shifted down to bit 0.
pub open spec fn field_spec(w: u16, lo: u16, hi: u16) -> u16 {
    (w >> lo) & low_mask((hi - lo + 1) as u16)
}

/// `w` with its bits above position `m` replaced by copies of bit `m`.
pub open spec fn sext_spec(w: u16, m: u16) -> u16 {
    if bit_set(w, m) {
        (w & low_mask((m + 1) as u16)) | !low_mask((m + 1) as u16)
    } else {
        w & low_mask((m + 1) as u16)
    }
}

/// Addition of two words modulo 2^16.
pub open spec fn wrap_add(a: u16, b: u16) -> u16 {
    ((a + b) % 0x10000) as u16
}

/// Two's-complement negation modulo 2^16.
pub open spec fn neg16(w: u16) -> u16 {
    ((0x10000 - w) % 0x10000) as u16
}

/// The signed value a word denotes under two's-complement interpretation.
pub open spec fn to_signed(w: u16) -> int {
    if w < 0x8000 {
        w as int
    } else {
        w - 0x10000
    }
}

/// Smallest `k` such that `n >> k == 0`.
pub open spec fn bits_for(n: u16) -> u16
    decreases n,
{
    if n == 0 {
        0
    } else {
        (1 + bits_for(n / 2)) as u16
    }
}

/// A left shift of one by at most the word width is positive.
pub proof fn lemma_shl1_pos(k: u16)
    by (bit_vector)
    ensures
        k <= 16 ==> 1u32 << k >= 1,
{
}

impl BitRange {
    /// A range is invalid when it is reversed or reaches past bit 15.
    pub fn is_invalid(&self) -> (r: bool)
        ensures
            r == (self.start_bit > self.end_bit || self.start_bit > 15 || self.end_bit > 15),
    {
        if self.start_bit > self.end_bit {
            return true;
        }
        self.start_bit > (WORD_WIDTH - 1) || self.end_bit > (WORD_WIDTH - 1)
    }
}

/// A bit range given as a pair is invalid when it is reversed or reaches past
/// bit 15.
pub fn is_invalid(bit_range: (u16, u16)) -> (r: bool)
    ensures
        r == (bit_range.0 > bit_range.1 || bit_range.0 > 15 || bit_range.1 > 15),
{
    if bit_range.0 > bit_range.1 {
        return true;
    }
    bit_range.0 > (WORD_WIDTH - 1) || bit_range.1 > (WORD_WIDTH - 1)
}

/// A valid range at most three bits wide can hold a register number.
pub fn is_valid_register(bit_range: (u16, u16)) -> (r: bool)
    ensures
        r == (bit_range.0 <= bit_range.1 && bit_range.1 <= 15 && bit_range.1 - bit_range.0 < 3),
{
    !is_invalid(bit_range) && (bit_range.1 - bit_range.0) < 3
}

/// `w` with every bit cleared except bit `position`.
pub fn isolate_bit(word: u16, position: u16) -> (r: u16)
    requires
        position <= 15,
    ensures
        r == word & (1u16 << position),
        (r == 0) == !bit_set(word, position),
{
    let r = word & (1u16 << position);
    proof {
        assert((word & (1u16 << position) == 0) == !((word >> position) & 1 == 1))
            by (bit_vector)
            requires
                position <= 15,
        ;
    }
    r
}

/// `w` with every bit outside `range` cleared; the field keeps its position.
pub fn isolate_bits(word: u16, range: Range) -> (r: u16)
    requires
        range.0 <= range.1 <= 15,
    ensures
        r == (field_spec(word, range.0, range.1) << range.0),
{
    let width = range.1 - range.0 + 1;
    proof {
        lemma_shl1_pos(width);
    }
    let mask = ((1u32 << width) - 1) as u16;
    ((word >> range.0) & mask) << range.0
}

/// The field of `word` spanning `range`, shifted down to bit 0.
pub fn isolate_bits_then_shift(word: u16, range: (u16, u16)) -> (r: u16)
    requires
        range.0 <= range.1 <= 15,
    ensures
        r == field_spec(word, range.0, range.1),
{
    let width = range.1 - range.0 + 1;
    proof {
        lemma_shl1_pos(width);
    }
    let mask = ((1u32 << width) - 1) as u16;
    (word >> range.0) & mask
}

/// Whether bit `bit` of `word` is set.
pub fn flag_is_set(word: u16, bit: u16) -> (r: bool)
    requires
        bit <= 15,
    ensures
        r == bit_set(word, bit),
{
    (word >> bit) & 1 == 1
}

/// `value` moved to the bit position of operand `arg_index`, counting operand
/// fields of three bits downward from bit 9.
pub fn shift_register(value: u16, arg_index: u16, offset: u16) -> (r: u16)
    requires
        arg_index <= 2,
        3 * arg_index <= offset + 9,
        offset + 9 - 3 * arg_index <= 15,
    ensures
        r == (value << ((offset + 9 - 3 * arg_index) as u16)),
{
    value << (offset + 9 - 3 * arg_index)
}

/// `word` with bit `bit` set.
pub fn set_flag_true(word: u16, bit: u16) -> (r: u16)
    requires
        bit <= 15,
    ensures
        r == (word | (1u16 << bit)),
{
    word | (1u16 << bit)
}

/// A word whose only set bit is `bit`.
pub fn flag_set_mask(bit: u16) -> (r: u16)
    requires
        bit <= 15,
    ensures
        r == (1u16 << bit),
{
    1u16 << bit
}

/// `word` with bit `bit` cleared.
pub fn set_flag_false(word: u16, bit: u16) -> (r: u16)
    requires
        bit <= 15,
    ensures
        r == (word & !(1u16 << bit)),
{
    word & !(1u16 << bit)
}

/// Smallest `k` with `n >> k == 0`: the number of bits needed to store the
/// magnitude `n`.
pub fn bits_required_for_number(n: u16) -> (r: u16)
    ensures
        r == bits_for(n),
        r <= 16,
    decreases n,
{
    proof {
        lemma_bits_for_le_16(n);
    }
    if n == 0 {
        0
    } else {
        1 + bits_required_for_number(n / 2)
    }
}

/// The result of `bits_for` never exceeds the word width.
proof fn lemma_bits_for_le_16(n: u16)
    ensures
        bits_for(n) <= 16,
        n < 0x8000 ==> bits_for(n) <= 15,
    decreases n,
{
    if n != 0 {
        lemma_bits_for_le_16(n / 2);
        if n >= 0x8000 {
            assert(n / 2 < 0x8000);
        } else {
            lemma_bits_for_step(n);
        }
    }
}

/// Halving a bounded magnitude lowers its bit requirement accordingly.
proof fn lemma_bits_for_step(n: u16)
    ensures
        0 < n < 0x8000 ==> bits_for(n / 2) <= 14,
    decreases n,
{
    if 0 < n && n < 0x8000 {
        assert(n < 0x8000 ==> ((n / 2) as u32) < (1u32 << 14u16)) by (bit_vector);
        lemma_bits_for_below(n / 2, 14);
    }
}

/// A magnitude below `2^k` needs at most `k` bits.
pub proof fn lemma_bits_for_below(n: u16, k: u16)
    requires
        k <= 16,
        (n as u32) < (1u32 << k),
    ensures
        bits_for(n) <= k,
    decreases n,
{
    if n != 0 {
        assert(k >= 1) by (bit_vector)
            requires
                (n as u32) < (1u32 << k) && n != 0 && k <= 16,
        ;
        assert(((n / 2) as u32) < (1u32 << ((k - 1) as u16))) by (bit_vector)
            requires
                (n as u32) < (1u32 << k) && 1 <= k <= 16,
        ;
        lemma_bits_for_below(n / 2, (k - 1) as u16);
    }
}

/// A magnitude always fits in `bits_for` of itself many bits.
pub proof fn lemma_bits_for_fits(n: u16)
    ensures
        (n as u32) < (1u32 << bits_for(n)),
    decreases n,
{
    if n == 0 {
        assert((0u32) < (1u32 << 0u16)) by (bit_vector);
    } else {
        lemma_bits_for_fits(n / 2);
        lemma_bits_for_le_16(n / 2);
        let k = bits_for(n / 2);
        assert(n / 2 < 0x8000);
        assert(((n / 2) as u32) < (1u32 << k) && k <= 15 ==> (n as u32) < (1u32 << ((k + 1) as u16)))
            by (bit_vector);
    }
}

/// The bit requirement of a magnitude is at most `k` exactly when the
/// magnitude is below `2^k`.
pub proof fn lemma_bits_required_iff(n: u16, k: u16)
    requires
        k <= 16,
    ensures
        bits_for(n) <= k <==> (n as u32) < (1u32 << k),
{
    if (n as u32) < (1u32 << k) {
        lemma_bits_for_below(n, k);
    }
    if bits_for(n) <= k {
        lemma_bits_for_fits(n);
        let b = bits_for(n);
        assert((n as u32) < (1u32 << b) && b <= k && k <= 16 ==> (n as u32) < (1u32 << k))
            by (bit_vector);
    }
}

/// Whether the word is negative under two's-complement interpretation.
pub fn is_negative(word: u16) -> (r: bool)
    ensures
        r == bit_set(word, 15),
        r == (to_signed(word) < 0),
{
    proof {
        assert(((word >> 15u16) & 1 == 1) == (word >= 0x8000)) by (bit_vector);
    }
    flag_is_set(word, 15)
}

/// The signed value of the word, as a machine integer.
pub fn as_negative_i16(word: u16) -> (r: i16)
    ensures
        r as int == to_signed(word),
{
    proof {
        assert(word < 0x8000 ==> (word as i16) as int == word as int) by (bit_vector);
        assert(word >= 0x8000 ==> (word as i16) as int == word - 0x10000) by (bit_vector);
    }
    word as i16
}

/// The signed value of the word, widened.
pub fn as_negative_i32(word: u16) -> (r: i32)
    ensures
        r as int == to_signed(word),
{
    as_negative_i16(word) as i32
}

/// Two's-complement negation of the word.
pub fn invert_sign(word: u16) -> (r: u16)
    ensures
        r == neg16(word),
{
    if word == 0 {
        0
    } else {
        (0xFFFF - word) + 1
    }
}

/// Merges two bytes into one word, the second byte forming the high half.
pub fn merge_bytes(first: u8, second: u8) -> (r: u16)
    ensures
        r == (second as u16) * 256 + (first as u16),
{
    let first_16bit: u16 = first as u16;
    let second_16bit: u16 = second as u16;
    proof {
        assert(((second as u16) << 8u16) == (second as u16) * 256) by (bit_vector);
    }
    (second_16bit << 8) + first_16bit
}

/// Addition of two words modulo 2^16.
pub fn add_2s_complement(word_1: u16, word_2: u16) -> (r: u16)
    ensures
        r == wrap_add(word_1, word_2),
{
    let wide = word_1 as u32 + word_2 as u32;
    if wide <= 0xFFFF {
        (wide as u16)
    } else {
        (wide - 0x10000) as u16
    }
}

/// Addition modulo 2^16 is commutative.
pub proof fn lemma_add_2s_complement_comm(a: u16, b: u16)
    ensures
        wrap_add(a, b) == wrap_add(b, a),
{
}

/// Addition modulo 2^16 is associative.
pub proof fn lemma_add_2s_complement_assoc(a: u16, b: u16, c: u16)
    ensures
        wrap_add(wrap_add(a, b), c) == wrap_add(a, wrap_add(b, c)),
{
    assert(((((a + b) % 0x10000) as u16) + c) % 0x10000 == (a + (((b + c) % 0x10000) as u16))
        % 0x10000) by (bit_vector);
}

/// Addition modulo 2^16 agrees with signed addition whenever the signed sum
/// is representable.
pub proof fn lemma_add_2s_complement_signed(a: u16, b: u16)
    requires
        -0x8000 <= to_signed(a) + to_signed(b) < 0x8000,
    ensures
        to_signed(wrap_add(a, b)) == to_signed(a) + to_signed(b),
{
    let s = wrap_add(a, b);
    assert((-0x8000 <= (if a < 0x8000 {
        a as int
    } else {
        a - 0x10000
    }) + (if b < 0x8000 {
        b as int
    } else {
        b - 0x10000
    }) < 0x8000) ==> ((if s < 0x8000 {
        s as int
    } else {
        s - 0x10000
    }) == (if a < 0x8000 {
        a as int
    } else {
        a - 0x10000
    }) + (if b < 0x8000 {
        b as int
    } else {
        b - 0x10000
    }))) by (bit_vector)
        requires
            s == ((a + b) % 0x10000) as u16,
    ;
}

/// `w` with bits above position `most_significant_bit` replaced by copies of
/// that bit.
pub fn sign_extend(word: u16, most_significant_bit: u16) -> (r: u16)
    requires
        most_significant_bit <= 15,
    ensures
        r == sext_spec(word, most_significant_bit),
{
    let m = most_significant_bit;
    proof {
        lemma_shl1_pos((m + 1) as u16);
    }
    let lowmask = ((1u32 << (m + 1)) - 1) as u16;
    if (word >> m) & 1 == 1 {
        (word & lowmask) | !lowmask
    } else {
        word & lowmask
    }
}

/// `word` with only its `bits` low bits kept.
pub fn truncate_to(word: u16, bits: u16) -> (r: u16)
    requires
        bits <= 16,
    ensures
        r == (word & low_mask(bits)),
{
    proof {
        lemma_shl1_pos(bits);
    }
    let mask = ((1u32 << bits) - 1) as u16;
    word & mask
}

/// Sign extension followed by truncation to the original width is the
/// identity on values that fit that width.
pub proof fn lemma_sign_extend_truncate_identity(w: u16, m: u16)
    requires
        m <= 15,
        w >> (m + 1) == 0,
    ensures
        sext_spec(w, m) & low_mask((m + 1) as u16) == w,
{
    let n = (m + 1) as u16;
    let lm = low_mask(n);
    assert(w >> n == w >> (m + 1)) by (bit_vector)
        requires
            m <= 15 && n == (m + 1) as u16,
    ;
    assert((((w >> m) & 1 == 1) ==> (((w & lm) | !lm) & lm == w)) && (!((w >> m) & 1 == 1) ==> ((w
        & lm) & lm == w))) by (bit_vector)
        requires
            m <= 15 && n == (m + 1) as u16 && lm == ((1u32 << n) - 1) as u16 && w >> n == 0,
    ;
}

/// The opcode nibble of an encoded word, kept in place at bits 12 to 15.
pub fn get_opcode_16bit(word: u16) -> (r: u16)
    ensures
        r == word & 0xF000,
{
    let r = isolate_bits(word, (12, 15));
    proof {
        assert(((word >> 12u16) & (((1u32 << 4u16) - 1) as u16)) << 12u16 == word & 0xF000)
            by (bit_vector);
    }
    r
}

/// The opcode nibble of an encoded word, shifted down to bit 0.
pub fn get_opcode_4bit(word: u16) -> (r: u16)
    ensures
        r == word >> 12,
        r < 16,
{
    let r = isolate_bits_then_shift(word, (12, 15));
    proof {
        assert((word >> 12u16) & (((1u32 << 4u16) - 1) as u16) == word >> 12u16 && word >> 12u16
            < 16) by (bit_vector);
    }
    r
}

/// The register number stored in the three-bit field at `range`.
pub fn get_register_at(word: u16, range: (u16, u16)) -> (r: u16)
    requires
        range.0 <= range.1 <= 15,
        range.1 - range.0 < 3,
    ensures
        r == field_spec(word, range.0, range.1),
        r < 8,
{
    let r = isolate_bits_then_shift(word, range);
    proof {
        let lo = range.0;
        let hi = range.1;
        assert((word >> lo) & (((1u32 << ((hi - lo + 1) as u16)) - 1) as u16) < 8) by (bit_vector)
            requires
                lo <= hi <= 15 && hi - lo < 3,
        ;
    }
    r
}

/// The low `bits`-bit field of the word, sign extended to the full width.
pub fn get_sign_ext_value(word: u16, bits: u16) -> (r: u16)
    requires
        1 <= bits <= 16,
    ensures
        r == sext_spec(field_spec(word, 0, (bits - 1) as u16), (bits - 1) as u16),
{
    let f = isolate_bits_then_shift(word, (0, bits - 1));
    sign_extend(f, bits - 1)
}

} // verus!

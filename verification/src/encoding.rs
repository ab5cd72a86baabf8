//! The bytes of a scalar and their FNV-1a fold, as mathematics.

use vstd::prelude::*;

verus! {

/// The FNV-1a 64-bit offset basis.
pub const FNV_OFFSET: u64 = 0xcbf29ce484222325;

/// The FNV 64-bit prime.
pub const FNV_PRIME: u64 = 0x100000001b3;

/// One step of FNV-1a: the byte is xor-ed in, and the product with the prime
/// is taken modulo 2^64.
pub open spec fn fold_byte(state: u64, byte: u8) -> u64 {
    (((state ^ (byte as u64)) * FNV_PRIME) % 0x1_0000_0000_0000_0000) as u64
}

/// FNV-1a over a sequence of bytes, first byte first.
pub open spec fn fold_bytes(state: u64, bytes: Seq<u8>) -> u64
    decreases bytes.len(),
{
    if bytes.len() == 0 {
        state
    } else {
        fold_byte(fold_bytes(state, bytes.drop_last()), bytes.last())
    }
}

/// The lowest `count` bytes of `value`, lowest first.
pub open spec fn le_bytes(value: nat, count: nat) -> Seq<u8>
    decreases count,
{
    if count == 0 {
        Seq::empty()
    } else {
        seq![(value % 256) as u8] + le_bytes(value / 256, (count - 1) as nat)
    }
}

/// How many values fit in `count` bytes.
pub open spec fn byte_range(count: nat) -> nat
    decreases count,
{
    if count == 0 {
        1
    } else {
        256 * byte_range((count - 1) as nat)
    }
}

/// `value` in `count` bytes of two's complement, as an unsigned number.
pub open spec fn twos_complement(value: int, count: nat) -> nat {
    (value % (byte_range(count) as int)) as nat
}

/// Folding two sequences one after the other is folding them as one.
pub proof fn lemma_fold_concat(state: u64, a: Seq<u8>, b: Seq<u8>)
    ensures
        fold_bytes(fold_bytes(state, a), b) == fold_bytes(state, a + b),
    decreases b.len(),
{
    if b.len() == 0 {
        assert(a + b =~= a);
    } else {
        lemma_fold_concat(state, a, b.drop_last());
        assert((a + b).drop_last() =~= a + b.drop_last());
        assert((a + b).last() == b.last());
    }
}

/// Folding a single byte.
pub proof fn lemma_fold_one(state: u64, byte: u8)
    ensures
        fold_bytes(state, seq![byte]) == fold_byte(state, byte),
{
    assert(seq![byte].drop_last() =~= Seq::<u8>::empty());
    assert(fold_bytes(state, seq![byte].drop_last()) == state);
}

/// Some number of bytes holds at least one value.
pub proof fn lemma_byte_range_positive(count: nat)
    ensures
        byte_range(count) > 0,
    decreases count,
{
    if count > 0 {
        lemma_byte_range_positive((count - 1) as nat);
    }
}

/// The sizes of the integer types.
pub proof fn lemma_byte_range_values()
    ensures
        byte_range(1) == 0x100,
        byte_range(2) == 0x1_0000,
        byte_range(4) == 0x1_0000_0000,
        byte_range(8) == 0x1_0000_0000_0000_0000,
        byte_range(16) == 0x1_0000_0000_0000_0000_0000_0000_0000_0000,
{
    reveal_with_fuel(byte_range, 17);
}

/// A value has as many bytes as were asked for.
pub proof fn lemma_le_bytes_len(value: nat, count: nat)
    ensures
        le_bytes(value, count).len() == count,
    decreases count,
{
    if count > 0 {
        lemma_le_bytes_len(value / 256, (count - 1) as nat);
    }
}

/// Taking the lowest byte off a value's low part, and off the value itself.
proof fn lemma_take_lowest_byte(value: nat, range: nat)
    requires
        range > 0,
    ensures
        (value % (256 * range)) % 256 == value % 256,
        (value % (256 * range)) / 256 == (value / 256) % range,
        value / (256 * range) == (value / 256) / range,
{
    vstd::arithmetic::div_mod::lemma_div_denominator(value as int, 256, range as int);
    vstd::arithmetic::div_mod::lemma_mod_breakdown(value as int, 256, range as int);
}

/// The bytes of a value are those of its low part, then those of its high
/// part.
pub proof fn lemma_le_bytes_split(value: nat, low: nat, high: nat)
    ensures
        le_bytes(value, low + high) == le_bytes(value % byte_range(low), low) + le_bytes(
            value / byte_range(low),
            high,
        ),
    decreases low,
{
    if low == 0 {
        assert(byte_range(0) == 1);
        assert(value / 1 == value);
        assert(le_bytes(value % 1, 0) =~= Seq::empty());
        assert(Seq::empty() + le_bytes(value, high) =~= le_bytes(value, high));
    } else {
        let rest = (low - 1) as nat;
        let range = byte_range(rest);
        let small = value % byte_range(low);
        let large = value / byte_range(low);
        let lowest = seq![(value % 256) as u8];
        let middle = le_bytes((value / 256) % range, rest);
        let upper = le_bytes(large, high);
        lemma_byte_range_positive(rest);
        assert(byte_range(low) == 256 * range);
        lemma_take_lowest_byte(value, range);
        lemma_le_bytes_split(value / 256, rest, high);
        assert((low + high - 1) as nat == rest + high);
        assert(le_bytes(value, low + high) == lowest + le_bytes(value / 256, rest + high));
        assert(le_bytes(value / 256, rest + high) == middle + upper);
        assert(le_bytes(small, low) == lowest + middle);
        assert(lowest + (middle + upper) =~= (lowest + middle) + upper);
    }
}

/// Folding the low part of a value and then its high part is folding the
/// value.
pub proof fn lemma_fold_split(state: u64, value: nat, low: nat, high: nat)
    ensures
        fold_bytes(
            fold_bytes(state, le_bytes(value % byte_range(low), low)),
            le_bytes(value / byte_range(low), high),
        ) == fold_bytes(state, le_bytes(value, low + high)),
{
    lemma_le_bytes_split(value, low, high);
    lemma_fold_concat(
        state,
        le_bytes(value % byte_range(low), low),
        le_bytes(value / byte_range(low), high),
    );
}

/// Casting an `i8` to `u8` gives its two's complement.
pub proof fn lemma_i8_cast(val: i8)
    ensures
        val as u8 == twos_complement(val as int, 1),
{
    lemma_byte_range_values();
    if val >= 0 {
        assert(val as u8 == val) by (bit_vector)
            requires
                val >= 0,
        ;
    } else {
        assert(val as u8 == val + 0x100) by (bit_vector)
            requires
                val < 0,
        ;
    }
}

/// Casting an `i16` to `u16` gives its two's complement.
pub proof fn lemma_i16_cast(val: i16)
    ensures
        val as u16 == twos_complement(val as int, 2),
{
    lemma_byte_range_values();
    if val >= 0 {
        assert(val as u16 == val) by (bit_vector)
            requires
                val >= 0,
        ;
    } else {
        assert(val as u16 == val + 0x1_0000) by (bit_vector)
            requires
                val < 0,
        ;
    }
}

/// Casting an `i32` to `u32` gives its two's complement.
pub proof fn lemma_i32_cast(val: i32)
    ensures
        val as u32 == twos_complement(val as int, 4),
{
    lemma_byte_range_values();
    if val >= 0 {
        assert(val as u32 == val) by (bit_vector)
            requires
                val >= 0,
        ;
    } else {
        assert(val as u32 == val + 0x1_0000_0000) by (bit_vector)
            requires
                val < 0,
        ;
    }
}

/// Casting an `i64` to `u64` gives its two's complement.
pub proof fn lemma_i64_cast(val: i64)
    ensures
        val as u64 == twos_complement(val as int, 8),
{
    lemma_byte_range_values();
    if val >= 0 {
        assert(val as u64 == val) by (bit_vector)
            requires
                val >= 0,
        ;
    } else {
        assert(val as u64 == val + 0x1_0000_0000_0000_0000) by (bit_vector)
            requires
                val < 0,
        ;
    }
}

/// Casting an `i128` to `u128` gives its two's complement.
pub proof fn lemma_i128_cast(val: i128)
    ensures
        val as u128 == twos_complement(val as int, 16),
{
    lemma_byte_range_values();
    if val >= 0 {
        assert(val as u128 == val) by (bit_vector)
            requires
                val >= 0,
        ;
    } else {
        assert(val as u128 == val + 0x1_0000_0000_0000_0000_0000_0000_0000_0000) by (bit_vector)
            requires
                val < 0,
        ;
    }
}

/// Casting an `isize` to `u64` gives its two's complement.
pub proof fn lemma_isize_cast(val: isize)
    ensures
        val as u64 == twos_complement(val as int, 8),
{
    lemma_byte_range_values();
    if val >= 0 {
        assert(val as u64 == val) by (bit_vector)
            requires
                val >= 0,
        ;
    } else {
        assert(val as u64 == val + 0x1_0000_0000_0000_0000) by (bit_vector)
            requires
                val < 0,
        ;
    }
}

} // verus!

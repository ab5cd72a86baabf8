//! FNV-1a 64-bit trace state.
//!
//! Every interesting intermediate value of a program is folded into the trace
//! byte by byte. The resulting `u64` is the program's fingerprint: two runs
//! that dump the same values end with the same fingerprint.
//!
//! A trace starts at zero. Each run calls [`trace_reset`] before the program
//! and [`trace_finish`] after it.

use crate::encoding;
use crate::encoding::{FNV_OFFSET, FNV_PRIME};
use vstd::prelude::*;

verus! {

/// The trace state.
#[derive(Debug)]
pub struct Trace {
    state: u64,
}

impl View for Trace {
    type V = u64;

    closed spec fn view(&self) -> u64 {
        self.state
    }
}

impl Trace {
    /// A trace that has not been reset yet.
    pub fn new() -> (trace: Trace)
        ensures
            trace@ == 0,
    {
        Trace { state: 0 }
    }
}

/// Reset the trace state to the FNV-1a 64-bit offset basis.
pub fn trace_reset(trace: &mut Trace)
    ensures
        final(trace)@ == FNV_OFFSET,
{
    trace.state = FNV_OFFSET;
}

/// Read out the current trace state.
pub fn trace_finish(trace: &Trace) -> (fingerprint: u64)
    ensures
        fingerprint == trace@,
{
    trace.state
}

/// Folds one byte into the trace.
pub fn trace_write_byte(trace: &mut Trace, byte: u8)
    ensures
        final(trace)@ == encoding::fold_byte(old(trace)@, byte),
{
    trace.state = (trace.state ^ (byte as u64)).wrapping_mul(FNV_PRIME);
}

/// Folds a `u8`: its one byte.
pub fn trace_write_u8(trace: &mut Trace, val: u8)
    ensures
        final(trace)@ == encoding::fold_bytes(old(trace)@, encoding::le_bytes(val as nat, 1)),
{
    trace_write_byte(trace, val);
    proof {
        reveal_with_fuel(encoding::le_bytes, 2);
        assert(encoding::le_bytes(val as nat, 1) =~= seq![val]);
        encoding::lemma_fold_one(old(trace)@, val);
    }
}

/// Folds an `i8`: its one byte of two's complement.
pub fn trace_write_i8(trace: &mut Trace, val: i8)
    ensures
        final(trace)@ == encoding::fold_bytes(
            old(trace)@,
            encoding::le_bytes(encoding::twos_complement(val as int, 1), 1),
        ),
{
    proof {
        encoding::lemma_i8_cast(val);
    }
    trace_write_u8(trace, val as u8);
}

/// Folds a `u16`: its two bytes, lowest first.
pub fn trace_write_u16(trace: &mut Trace, val: u16)
    ensures
        final(trace)@ == encoding::fold_bytes(
            old(trace)@,
            encoding::le_bytes(val as nat, 2),
        ),
{
    proof {
        encoding::lemma_byte_range_values();
        assert(val & 0xff == val % 256) by (bit_vector);
        assert((val >> 8) & 0xff == val / 256) by (bit_vector);
        encoding::lemma_fold_split(trace@, val as nat, 1, 1);
    }
    trace_write_u8(trace, (val & 0xff) as u8);
    trace_write_u8(trace, ((val >> 8) & 0xff) as u8);
}

/// Folds an `i16`: its two bytes of two's complement, lowest first.
pub fn trace_write_i16(trace: &mut Trace, val: i16)
    ensures
        final(trace)@ == encoding::fold_bytes(
            old(trace)@,
            encoding::le_bytes(encoding::twos_complement(val as int, 2), 2),
        ),
{
    proof {
        encoding::lemma_i16_cast(val);
    }
    trace_write_u16(trace, val as u16);
}

/// Folds a `u32`: its four bytes, lowest first.
pub fn trace_write_u32(trace: &mut Trace, val: u32)
    ensures
        final(trace)@ == encoding::fold_bytes(
            old(trace)@,
            encoding::le_bytes(val as nat, 4),
        ),
{
    proof {
        encoding::lemma_byte_range_values();
        assert(val & 0xff == val % 256) by (bit_vector);
        assert((val >> 8) & 0xff == (val / 256) % 256) by (bit_vector);
        assert((val >> 16) & 0xff == (val / 256 / 256) % 256) by (bit_vector);
        assert((val >> 24) & 0xff == val / 256 / 256 / 256) by (bit_vector);
        encoding::lemma_fold_split(trace@, val as nat, 1, 3);
    }
    trace_write_u8(trace, (val & 0xff) as u8);
    proof {
        encoding::lemma_fold_split(trace@, val as nat / 256, 1, 2);
    }
    trace_write_u8(trace, ((val >> 8) & 0xff) as u8);
    proof {
        encoding::lemma_fold_split(trace@, val as nat / 256 / 256, 1, 1);
    }
    trace_write_u8(trace, ((val >> 16) & 0xff) as u8);
    trace_write_u8(trace, ((val >> 24) & 0xff) as u8);
}

/// Folds an `i32`: its four bytes of two's complement, lowest first.
pub fn trace_write_i32(trace: &mut Trace, val: i32)
    ensures
        final(trace)@ == encoding::fold_bytes(
            old(trace)@,
            encoding::le_bytes(encoding::twos_complement(val as int, 4), 4),
        ),
{
    proof {
        encoding::lemma_i32_cast(val);
    }
    trace_write_u32(trace, val as u32);
}

/// Folds a `u64`: its eight bytes, lowest first.
pub fn trace_write_u64(trace: &mut Trace, val: u64)
    ensures
        final(trace)@ == encoding::fold_bytes(
            old(trace)@,
            encoding::le_bytes(val as nat, 8),
        ),
{
    proof {
        encoding::lemma_byte_range_values();
        assert(val & 0xffff_ffff == val % 0x1_0000_0000) by (bit_vector);
        assert(val >> 32 == val / 0x1_0000_0000) by (bit_vector);
        encoding::lemma_fold_split(trace@, val as nat, 4, 4);
    }
    trace_write_u32(trace, (val & 0xffff_ffff) as u32);
    trace_write_u32(trace, (val >> 32) as u32);
}

/// Folds an `i64`: its eight bytes of two's complement, lowest first.
pub fn trace_write_i64(trace: &mut Trace, val: i64)
    ensures
        final(trace)@ == encoding::fold_bytes(
            old(trace)@,
            encoding::le_bytes(encoding::twos_complement(val as int, 8), 8),
        ),
{
    proof {
        encoding::lemma_i64_cast(val);
    }
    trace_write_u64(trace, val as u64);
}

/// Folds a `u128`: its sixteen bytes, lowest first.
pub fn trace_write_u128(trace: &mut Trace, val: u128)
    ensures
        final(trace)@ == encoding::fold_bytes(
            old(trace)@,
            encoding::le_bytes(val as nat, 16),
        ),
{
    proof {
        encoding::lemma_byte_range_values();
        assert(val & 0xffff_ffff_ffff_ffff == val % 0x1_0000_0000_0000_0000) by (bit_vector);
        assert(val >> 64 == val / 0x1_0000_0000_0000_0000) by (bit_vector);
        encoding::lemma_fold_split(trace@, val as nat, 8, 8);
    }
    trace_write_u64(trace, (val & 0xffff_ffff_ffff_ffff) as u64);
    trace_write_u64(trace, (val >> 64) as u64);
}

/// Folds an `i128`: its sixteen bytes of two's complement, lowest first.
pub fn trace_write_i128(trace: &mut Trace, val: i128)
    ensures
        final(trace)@ == encoding::fold_bytes(
            old(trace)@,
            encoding::le_bytes(encoding::twos_complement(val as int, 16), 16),
        ),
{
    proof {
        encoding::lemma_i128_cast(val);
    }
    trace_write_u128(trace, val as u128);
}

/// Folds a `usize` as eight bytes, lowest first, on every machine.
pub fn trace_write_usize(trace: &mut Trace, val: usize)
    ensures
        final(trace)@ == encoding::fold_bytes(
            old(trace)@,
            encoding::le_bytes(val as nat, 8),
        ),
{
    trace_write_u64(trace, val as u64);
}

/// Folds an `isize` as eight bytes of two's complement, lowest first, on
/// every machine.
pub fn trace_write_isize(trace: &mut Trace, val: isize)
    ensures
        final(trace)@ == encoding::fold_bytes(
            old(trace)@,
            encoding::le_bytes(encoding::twos_complement(val as int, 8), 8),
        ),
{
    proof {
        encoding::lemma_isize_cast(val);
    }
    trace_write_u64(trace, val as u64);
}

/// Folds a `bool` as one byte, 1 for true and 0 for false.
pub fn trace_write_bool(trace: &mut Trace, val: bool)
    ensures
        final(trace)@ == encoding::fold_bytes(
            old(trace)@,
            encoding::le_bytes(if val { 1 } else { 0 }, 1),
        ),
{
    trace_write_u8(trace, val as u8);
}

/// Folds a `char` as the four bytes of its code point, lowest first.
pub fn trace_write_char(trace: &mut Trace, val: char)
    ensures
        final(trace)@ == encoding::fold_bytes(
            old(trace)@,
            encoding::le_bytes(val as nat, 4),
        ),
{
    trace_write_u32(trace, val as u32);
}

/// Scalar values that can be folded into the trace.
pub trait TraceValue: Sized {
    /// The bytes that stand for the value in the trace.
    spec fn trace_bytes(self) -> Seq<u8>;

    /// Folds the value's bytes into the trace.
    fn trace_write(self, trace: &mut Trace)
        ensures
            final(trace)@ == encoding::fold_bytes(old(trace)@, self.trace_bytes()),
    ;
}

impl TraceValue for bool {
    open spec fn trace_bytes(self) -> Seq<u8> {
        encoding::le_bytes(if self { 1 } else { 0 }, 1)
    }

    fn trace_write(self, trace: &mut Trace) {
        trace_write_bool(trace, self);
    }
}

impl TraceValue for i8 {
    open spec fn trace_bytes(self) -> Seq<u8> {
        encoding::le_bytes(encoding::twos_complement(self as int, 1), 1)
    }

    fn trace_write(self, trace: &mut Trace) {
        trace_write_i8(trace, self);
    }
}

impl TraceValue for i16 {
    open spec fn trace_bytes(self) -> Seq<u8> {
        encoding::le_bytes(encoding::twos_complement(self as int, 2), 2)
    }

    fn trace_write(self, trace: &mut Trace) {
        trace_write_i16(trace, self);
    }
}

impl TraceValue for i32 {
    open spec fn trace_bytes(self) -> Seq<u8> {
        encoding::le_bytes(encoding::twos_complement(self as int, 4), 4)
    }

    fn trace_write(self, trace: &mut Trace) {
        trace_write_i32(trace, self);
    }
}

impl TraceValue for i64 {
    open spec fn trace_bytes(self) -> Seq<u8> {
        encoding::le_bytes(encoding::twos_complement(self as int, 8), 8)
    }

    fn trace_write(self, trace: &mut Trace) {
        trace_write_i64(trace, self);
    }
}

impl TraceValue for i128 {
    open spec fn trace_bytes(self) -> Seq<u8> {
        encoding::le_bytes(encoding::twos_complement(self as int, 16), 16)
    }

    fn trace_write(self, trace: &mut Trace) {
        trace_write_i128(trace, self);
    }
}

impl TraceValue for isize {
    open spec fn trace_bytes(self) -> Seq<u8> {
        encoding::le_bytes(encoding::twos_complement(self as int, 8), 8)
    }

    fn trace_write(self, trace: &mut Trace) {
        trace_write_isize(trace, self);
    }
}

impl TraceValue for u8 {
    open spec fn trace_bytes(self) -> Seq<u8> {
        encoding::le_bytes(self as nat, 1)
    }

    fn trace_write(self, trace: &mut Trace) {
        trace_write_u8(trace, self);
    }
}

impl TraceValue for u16 {
    open spec fn trace_bytes(self) -> Seq<u8> {
        encoding::le_bytes(self as nat, 2)
    }

    fn trace_write(self, trace: &mut Trace) {
        trace_write_u16(trace, self);
    }
}

impl TraceValue for u32 {
    open spec fn trace_bytes(self) -> Seq<u8> {
        encoding::le_bytes(self as nat, 4)
    }

    fn trace_write(self, trace: &mut Trace) {
        trace_write_u32(trace, self);
    }
}

impl TraceValue for u64 {
    open spec fn trace_bytes(self) -> Seq<u8> {
        encoding::le_bytes(self as nat, 8)
    }

    fn trace_write(self, trace: &mut Trace) {
        trace_write_u64(trace, self);
    }
}

impl TraceValue for u128 {
    open spec fn trace_bytes(self) -> Seq<u8> {
        encoding::le_bytes(self as nat, 16)
    }

    fn trace_write(self, trace: &mut Trace) {
        trace_write_u128(trace, self);
    }
}

impl TraceValue for usize {
    open spec fn trace_bytes(self) -> Seq<u8> {
        encoding::le_bytes(self as nat, 8)
    }

    fn trace_write(self, trace: &mut Trace) {
        trace_write_usize(trace, self);
    }
}

impl TraceValue for char {
    open spec fn trace_bytes(self) -> Seq<u8> {
        encoding::le_bytes(self as nat, 4)
    }

    fn trace_write(self, trace: &mut Trace) {
        trace_write_char(trace, self);
    }
}

/// Aggregates of scalar values that can be folded into the trace in one call:
/// `()` and tuples of up to five scalars.
pub trait TraceDump: Sized {
    /// The bytes that stand for the aggregate in the trace.
    spec fn dump_bytes(self) -> Seq<u8>;

    /// Folds the aggregate's scalars into the trace, in order.
    fn trace_dump(self, trace: &mut Trace)
        ensures
            final(trace)@ == encoding::fold_bytes(old(trace)@, self.dump_bytes()),
    ;
}

impl TraceDump for () {
    open spec fn dump_bytes(self) -> Seq<u8> {
        Seq::empty()
    }

    fn trace_dump(self, trace: &mut Trace) {
    }
}

impl<A: TraceValue> TraceDump for (A,) {
    open spec fn dump_bytes(self) -> Seq<u8> {
        self.0.trace_bytes()
    }

    fn trace_dump(self, trace: &mut Trace) {
        self.0.trace_write(trace);
    }
}

impl<A: TraceValue, B: TraceValue> TraceDump for (A, B) {
    open spec fn dump_bytes(self) -> Seq<u8> {
        self.0.trace_bytes() + self.1.trace_bytes()
    }

    fn trace_dump(self, trace: &mut Trace) {
        self.0.trace_write(trace);
        proof {
            encoding::lemma_fold_concat(
                old(trace)@,
                self.0.trace_bytes(),
                self.1.trace_bytes(),
            );
        }
        self.1.trace_write(trace);
    }
}

impl<A: TraceValue, B: TraceValue, C: TraceValue> TraceDump for (A, B, C) {
    open spec fn dump_bytes(self) -> Seq<u8> {
        self.0.trace_bytes() + self.1.trace_bytes() + self.2.trace_bytes()
    }

    fn trace_dump(self, trace: &mut Trace) {
        self.0.trace_write(trace);
        proof {
            encoding::lemma_fold_concat(
                old(trace)@,
                self.0.trace_bytes(),
                self.1.trace_bytes(),
            );
        }
        self.1.trace_write(trace);
        proof {
            encoding::lemma_fold_concat(
                old(trace)@,
                self.0.trace_bytes() + self.1.trace_bytes(),
                self.2.trace_bytes(),
            );
        }
        self.2.trace_write(trace);
    }
}

impl<A: TraceValue, B: TraceValue, C: TraceValue, D: TraceValue> TraceDump for (A, B, C, D) {
    open spec fn dump_bytes(self) -> Seq<u8> {
        self.0.trace_bytes() + self.1.trace_bytes() + self.2.trace_bytes() + self.3.trace_bytes()
    }

    fn trace_dump(self, trace: &mut Trace) {
        self.0.trace_write(trace);
        proof {
            encoding::lemma_fold_concat(
                old(trace)@,
                self.0.trace_bytes(),
                self.1.trace_bytes(),
            );
        }
        self.1.trace_write(trace);
        proof {
            encoding::lemma_fold_concat(
                old(trace)@,
                self.0.trace_bytes() + self.1.trace_bytes(),
                self.2.trace_bytes(),
            );
        }
        self.2.trace_write(trace);
        proof {
            encoding::lemma_fold_concat(
                old(trace)@,
                self.0.trace_bytes() + self.1.trace_bytes() + self.2.trace_bytes(),
                self.3.trace_bytes(),
            );
        }
        self.3.trace_write(trace);
    }
}

impl<A: TraceValue, B: TraceValue, C: TraceValue, D: TraceValue, E: TraceValue> TraceDump for (A, B, C, D, E) {
    open spec fn dump_bytes(self) -> Seq<u8> {
        self.0.trace_bytes() + self.1.trace_bytes() + self.2.trace_bytes() + self.3.trace_bytes() + self.4.trace_bytes()
    }

    fn trace_dump(self, trace: &mut Trace) {
        self.0.trace_write(trace);
        proof {
            encoding::lemma_fold_concat(
                old(trace)@,
                self.0.trace_bytes(),
                self.1.trace_bytes(),
            );
        }
        self.1.trace_write(trace);
        proof {
            encoding::lemma_fold_concat(
                old(trace)@,
                self.0.trace_bytes() + self.1.trace_bytes(),
                self.2.trace_bytes(),
            );
        }
        self.2.trace_write(trace);
        proof {
            encoding::lemma_fold_concat(
                old(trace)@,
                self.0.trace_bytes() + self.1.trace_bytes() + self.2.trace_bytes(),
                self.3.trace_bytes(),
            );
        }
        self.3.trace_write(trace);
        proof {
            encoding::lemma_fold_concat(
                old(trace)@,
                self.0.trace_bytes() + self.1.trace_bytes() + self.2.trace_bytes() + self.3.trace_bytes(),
                self.4.trace_bytes(),
            );
        }
        self.4.trace_write(trace);
    }
}

/// Fold a value into the trace.
///
/// Generic over any `TraceDump`, so a single call site handles every supported
/// argument shape.
pub fn dump_var<T: TraceDump>(trace: &mut Trace, value: T)
    ensures
        final(trace)@ == encoding::fold_bytes(old(trace)@, value.dump_bytes()),
{
    value.trace_dump(trace);
}

} // verus!
